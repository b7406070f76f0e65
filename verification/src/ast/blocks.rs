use crate::ast::diagnostic::opt_string_view;
use crate::ast::nodes::{attrs_view, inlines_view, HtmlAttr, HtmlAttrView, InlineNode, InlineNodeView};
use crate::ast::span::Span;
use vstd::prelude::*;

verus! {

/// The root of a parsed document.
#[derive(Debug, PartialEq, Eq)]
pub struct Document {
    /// The whole input.
    pub span: Span,
    pub blocks: Vec<BlockNode>,
    /// `[[Category:Name|sort]]` lines, kept apart from the blocks.
    pub categories: Vec<CategoryTag>,
    /// Set where the document starts with a redirect directive.
    pub redirect: Option<Redirect>,
}

/// A category tag such as `[[Category:Chess Programmer|Thompson]]`.
#[derive(Debug, Clone, PartialEq, Eq)]
pub struct CategoryTag {
    pub span: Span,
    pub name: String,
    pub sort_key: Option<String>,
}

/// A redirect directive such as `#REDIRECT [[Target]]`.
#[derive(Debug, Clone, PartialEq, Eq)]
pub struct Redirect {
    pub span: Span,
    pub target: String,
    pub anchor: Option<String>,
}

/// A block node: a span and what stands there.
#[derive(Debug, PartialEq, Eq)]
pub struct BlockNode {
    pub span: Span,
    pub kind: BlockKind,
}

#[derive(Debug, PartialEq, Eq)]
pub enum BlockKind {
    /// A heading of level 1 to 6.
    Heading { level: u8, content: Vec<InlineNode> },
    Paragraph { content: Vec<InlineNode> },
    List { items: Vec<ListItem> },
    Table { table: Table },
    CodeBlock { block: CodeBlock },
    /// `<references />`.
    References { node: ReferencesNode },
    HtmlBlock { node: HtmlBlock },
    /// A magic word such as `__TOC__`.
    MagicWord { name: String },
    HorizontalRule,
    BlockQuote { blocks: Vec<BlockNode> },
    /// Text kept as it stood.
    Raw { text: String },
}

#[derive(Debug, PartialEq, Eq)]
pub struct ListItem {
    pub span: Span,
    pub marker: ListMarker,
    pub blocks: Vec<BlockNode>,
}

#[derive(Debug, Clone, Copy, PartialEq, Eq, Structural)]
pub enum ListMarker {
    /// `*`
    Unordered,
    /// `#`
    Ordered,
    /// `;`
    Term,
    /// `:`
    Definition,
}

#[derive(Debug, Clone, PartialEq, Eq)]
pub struct CodeBlock {
    pub kind: CodeBlockKind,
    pub lang: Option<String>,
    /// The code as it stood in the source.
    pub text: String,
}

#[derive(Debug, Clone, Copy, PartialEq, Eq, Structural)]
pub enum CodeBlockKind {
    /// `<syntaxhighlight ...>...</syntaxhighlight>`
    SyntaxHighlight,
    /// `<pre>...</pre>`
    PreTag,
    /// Lines that begin with a space.
    LeadingSpace,
}

#[derive(Debug, Clone, PartialEq, Eq)]
pub struct ReferencesNode {
    pub attrs: Vec<HtmlAttr>,
}

#[derive(Debug, PartialEq, Eq)]
pub struct HtmlBlock {
    pub name: String,
    pub attrs: Vec<HtmlAttr>,
    pub children: Vec<BlockNode>,
    pub self_closing: bool,
}

#[derive(Debug, PartialEq, Eq)]
pub struct Table {
    pub attrs: Vec<HtmlAttr>,
    pub caption: Option<TableCaption>,
    pub rows: Vec<TableRow>,
}

#[derive(Debug, PartialEq, Eq)]
pub struct TableCaption {
    pub span: Span,
    pub attrs: Vec<HtmlAttr>,
    pub content: Vec<InlineNode>,
}

#[derive(Debug, PartialEq, Eq)]
pub struct TableRow {
    pub span: Span,
    pub attrs: Vec<HtmlAttr>,
    pub cells: Vec<TableCell>,
}

#[derive(Debug, PartialEq, Eq)]
pub struct TableCell {
    pub span: Span,
    pub kind: TableCellKind,
    pub attrs: Vec<HtmlAttr>,
    pub colspan: Option<u32>,
    pub rowspan: Option<u32>,
    /// The cell's content as blocks.
    pub blocks: Vec<BlockNode>,
}

#[derive(Debug, Clone, Copy, PartialEq, Eq, Structural)]
pub enum TableCellKind {
    Header,
    Data,
}

pub struct CategoryTagView {
    pub span: Span,
    pub name: Seq<char>,
    pub sort_key: Option<Seq<char>>,
}

pub struct RedirectView {
    pub span: Span,
    pub target: Seq<char>,
    pub anchor: Option<Seq<char>>,
}

pub struct BlockNodeView {
    pub span: Span,
    pub kind: BlockKindView,
}

pub enum BlockKindView {
    Heading { level: u8, content: Seq<InlineNodeView> },
    Paragraph { content: Seq<InlineNodeView> },
    List { items: Seq<ListItemView> },
    Table { table: TableView },
    CodeBlock { kind: CodeBlockKind, lang: Option<Seq<char>>, text: Seq<char> },
    References { attrs: Seq<HtmlAttrView> },
    HtmlBlock {
        name: Seq<char>,
        attrs: Seq<HtmlAttrView>,
        children: Seq<BlockNodeView>,
        self_closing: bool,
    },
    MagicWord { name: Seq<char> },
    HorizontalRule,
    BlockQuote { blocks: Seq<BlockNodeView> },
    Raw { text: Seq<char> },
}

pub struct ListItemView {
    pub span: Span,
    pub marker: ListMarker,
    pub blocks: Seq<BlockNodeView>,
}

pub struct TableView {
    pub attrs: Seq<HtmlAttrView>,
    pub caption: Option<TableCaptionView>,
    pub rows: Seq<TableRowView>,
}

pub struct TableCaptionView {
    pub span: Span,
    pub attrs: Seq<HtmlAttrView>,
    pub content: Seq<InlineNodeView>,
}

pub struct TableRowView {
    pub span: Span,
    pub attrs: Seq<HtmlAttrView>,
    pub cells: Seq<TableCellView>,
}

pub struct TableCellView {
    pub span: Span,
    pub kind: TableCellKind,
    pub attrs: Seq<HtmlAttrView>,
    pub colspan: Option<u32>,
    pub rowspan: Option<u32>,
    pub blocks: Seq<BlockNodeView>,
}

pub struct DocumentView {
    pub span: Span,
    pub blocks: Seq<BlockNodeView>,
    pub categories: Seq<CategoryTagView>,
    pub redirect: Option<RedirectView>,
}

impl View for CategoryTag {
    type V = CategoryTagView;

    open spec fn view(&self) -> CategoryTagView {
        CategoryTagView {
            span: self.span,
            name: self.name@,
            sort_key: opt_string_view(self.sort_key),
        }
    }
}

impl View for Redirect {
    type V = RedirectView;

    open spec fn view(&self) -> RedirectView {
        RedirectView {
            span: self.span,
            target: self.target@,
            anchor: opt_string_view(self.anchor),
        }
    }
}

pub open spec fn categories_view(s: Seq<CategoryTag>) -> Seq<CategoryTagView> {
    Seq::new(s.len(), |i: int| s[i]@)
}

pub open spec fn block_view(b: BlockNode) -> BlockNodeView
    decreases b,
{
    BlockNodeView { span: b.span, kind: block_kind_view(b.kind) }
}

pub open spec fn block_kind_view(k: BlockKind) -> BlockKindView
    decreases k,
{
    match k {
        BlockKind::Heading { level, content } => BlockKindView::Heading {
            level,
            content: inlines_view(content@),
        },
        BlockKind::Paragraph { content } => BlockKindView::Paragraph {
            content: inlines_view(content@),
        },
        BlockKind::List { items } => BlockKindView::List { items: items_view(items@) },
        BlockKind::Table { table } => BlockKindView::Table { table: table_view(table) },
        BlockKind::CodeBlock { block } => BlockKindView::CodeBlock {
            kind: block.kind,
            lang: opt_string_view(block.lang),
            text: block.text@,
        },
        BlockKind::References { node } => BlockKindView::References {
            attrs: attrs_view(node.attrs@),
        },
        BlockKind::HtmlBlock { node } => BlockKindView::HtmlBlock {
            name: node.name@,
            attrs: attrs_view(node.attrs@),
            children: blocks_view(node.children@),
            self_closing: node.self_closing,
        },
        BlockKind::MagicWord { name } => BlockKindView::MagicWord { name: name@ },
        BlockKind::HorizontalRule => BlockKindView::HorizontalRule,
        BlockKind::BlockQuote { blocks } => BlockKindView::BlockQuote {
            blocks: blocks_view(blocks@),
        },
        BlockKind::Raw { text } => BlockKindView::Raw { text: text@ },
    }
}

pub open spec fn blocks_view(s: Seq<BlockNode>) -> Seq<BlockNodeView>
    decreases s,
{
    Seq::new(s.len(), |i: int| if 0 <= i < s.len() { block_view(s[i]) } else { arbitrary() })
}

pub open spec fn item_view(it: ListItem) -> ListItemView
    decreases it,
{
    ListItemView { span: it.span, marker: it.marker, blocks: blocks_view(it.blocks@) }
}

pub open spec fn items_view(s: Seq<ListItem>) -> Seq<ListItemView>
    decreases s,
{
    Seq::new(s.len(), |i: int| if 0 <= i < s.len() { item_view(s[i]) } else { arbitrary() })
}

pub open spec fn cell_view(c: TableCell) -> TableCellView
    decreases c,
{
    TableCellView {
        span: c.span,
        kind: c.kind,
        attrs: attrs_view(c.attrs@),
        colspan: c.colspan,
        rowspan: c.rowspan,
        blocks: blocks_view(c.blocks@),
    }
}

pub open spec fn cells_view(s: Seq<TableCell>) -> Seq<TableCellView>
    decreases s,
{
    Seq::new(s.len(), |i: int| if 0 <= i < s.len() { cell_view(s[i]) } else { arbitrary() })
}

pub open spec fn row_view(r: TableRow) -> TableRowView
    decreases r,
{
    TableRowView { span: r.span, attrs: attrs_view(r.attrs@), cells: cells_view(r.cells@) }
}

pub open spec fn rows_view(s: Seq<TableRow>) -> Seq<TableRowView>
    decreases s,
{
    Seq::new(s.len(), |i: int| if 0 <= i < s.len() { row_view(s[i]) } else { arbitrary() })
}

pub open spec fn caption_view(c: TableCaption) -> TableCaptionView {
    TableCaptionView { span: c.span, attrs: attrs_view(c.attrs@), content: inlines_view(c.content@) }
}

pub open spec fn table_view(t: Table) -> TableView
    decreases t,
{
    TableView {
        attrs: attrs_view(t.attrs@),
        caption: match t.caption {
            Some(c) => Some(caption_view(c)),
            None => None,
        },
        rows: rows_view(t.rows@),
    }
}

impl View for BlockNode {
    type V = BlockNodeView;

    open spec fn view(&self) -> BlockNodeView {
        block_view(*self)
    }
}

impl View for ListItem {
    type V = ListItemView;

    open spec fn view(&self) -> ListItemView {
        item_view(*self)
    }
}

impl View for Table {
    type V = TableView;

    open spec fn view(&self) -> TableView {
        table_view(*self)
    }
}

impl View for Document {
    type V = DocumentView;

    open spec fn view(&self) -> DocumentView {
        DocumentView {
            span: self.span,
            blocks: blocks_view(self.blocks@),
            categories: categories_view(self.categories@),
            redirect: match self.redirect {
                Some(r) => Some(r@),
                None => None,
            },
        }
    }
}

} // verus!
