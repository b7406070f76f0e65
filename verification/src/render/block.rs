//! Blocks to Markdown.

use crate::ast::blocks::{
    block_kind_view, block_view, blocks_view, cell_view, cells_view, item_view, items_view,
    row_view, rows_view, table_view, BlockKind, BlockKindView, BlockNode, BlockNodeView, CodeBlock,
    CodeBlockKind, HtmlBlock, ListItem, ListItemView, ListMarker, Table, TableCell, TableCellKind,
    TableCellView, TableRow, TableRowView, TableView,
};
use crate::ast::diagnostic::opt_string_view;
use crate::ast::nodes::{
    attrs_view, file_params_view, inline_view, inlines_view, FileLink, FileNamespace,
    FileParamView, HtmlAttr, HtmlAttrView, InlineKind, InlineKindView, InlineNode, InlineNodeView,
};
use crate::ast::span::Span;
use crate::emit::{
    copy_bytes, decimal, hex, hex_digit, prefix_lines, prefixed, push_bytes, push_decimal,
    push_repeated, push_str, repeated, replace_byte, replaced,
};
use crate::parse::code::{attr_is, attr_value, find_attr_value};
use crate::parse::inline::{lit, trim, trim_range};
use crate::parse::util::lemma_trim_start_boundary;
use crate::render::inline::{
    attrs_md, caption_index, file_param_plain_text, find_caption, inline_md, inlines_md,
    lemma_space_lit, opt_utf8, parse_px, piece_md, plain_text_from, push_trimmed, px_value,
    render_inline, render_inlines, trimmed, trimmed_copy, without_trailing, Out, RenderContext,
};
use crate::render::options::{RenderOptions, RenderOptionsView};
use crate::text::{
    blank, eq_ci, equals_ci, first_byte, find_byte, is_blank, skip_byte_run_back, COLON, NL, SEMI,
    SLASH, SPACE, UNDERSCORE,
};
use vstd::prelude::*;
use vstd::string::*;
use vstd::utf8::{
    decode_first_scalar, decode_utf8, encode_utf8, encode_utf8_decode_utf8, encode_utf8_valid_utf8,
    is_char_boundary_iff_not_is_continuation_byte, is_char_boundary_start_end_of_seq,
    length_of_first_scalar, valid_utf8,
};

verus! {

/// What the nodes from the `k`-th on add to `out`, the footnote markers
/// left out.
pub open spec fn display_md(
    nodes: Seq<InlineNodeView>,
    k: int,
    o: RenderOptionsView,
    out: Seq<u8>,
    refs: Seq<Seq<u8>>,
) -> Out
    decreases nodes.len() - k,
{
    if k < 0 || k >= nodes.len() {
        Out { text: out, refs }
    } else if nodes[k].kind is Ref {
        display_md(nodes, k + 1, o, out, refs)
    } else {
        let r = inline_md(nodes[k], o, refs);
        display_md(nodes, k + 1, o, out + piece_md(nodes[k], o, out, r.text), r.refs)
    }
}

/// The footnote markers among the nodes from the `k`-th on.
pub open spec fn markers_md(
    nodes: Seq<InlineNodeView>,
    k: int,
    o: RenderOptionsView,
    refs: Seq<Seq<u8>>,
) -> Out
    decreases nodes.len() - k,
{
    if k < 0 || k >= nodes.len() {
        Out { text: Seq::empty(), refs }
    } else if nodes[k].kind is Ref {
        let r = inline_md(nodes[k], o, refs);
        let rest = markers_md(nodes, k + 1, o, r.refs);
        Out { text: r.text + rest.text, refs: rest.refs }
    } else {
        markers_md(nodes, k + 1, o, refs)
    }
}

/// The MD5 digest of a byte sequence: sixteen bytes.
pub uninterp spec fn md5_of(data: Seq<u8>) -> Seq<u8>;

/// `md5::compute`: the digest of `data`, a function of the bytes alone, and
/// sixteen bytes long. Nothing is proved of it here.
#[verifier::external_body]
pub(crate) fn md5_digest(data: &[u8]) -> (r: Vec<u8>)
    ensures
        r@ == md5_of(data@),
        r@.len() == 16,
{
    md5::compute(data).0.to_vec()
}

/// The upper-case form of a character, which may be more than one
/// character.
pub uninterp spec fn upper_of(c: char) -> Seq<char>;

/// `char::to_uppercase`, gathered into a string. The result is a function of
/// the character alone. Nothing is proved of it here.
#[verifier::external_body]
pub(crate) fn char_upper(c: char) -> (r: String)
    ensures
        r@ == upper_of(c),
{
    c.to_uppercase().collect()
}

/// The name under which the wiki stores a file: the name without the white
/// space at its ends, with `_` for each space and with its first character
/// in upper case.
pub open spec fn canonical_name(name: Seq<u8>) -> Seq<u8> {
    let t = trimmed(name);
    if t.len() == 0 || !valid_utf8(t) {
        replaced(t, SPACE, seq![UNDERSCORE])
    } else {
        encode_utf8(upper_of(decode_first_scalar(t) as char)) + replaced(
            t.subrange(length_of_first_scalar(t), t.len() as int),
            SPACE,
            seq![UNDERSCORE],
        )
    }
}

/// The two directory names that the wiki files an image under: the first
/// hexadecimal digit of the digest, and the first two.
pub open spec fn hash_dirs(digest: Seq<u8>) -> (Seq<u8>, Seq<u8>) {
    (seq![hex_digit(digest[0] / 16)], seq![hex_digit(digest[0] / 16), hex_digit(digest[0] % 16)])
}

/// The URL of an image named `name` whose name has the digest `digest`, at
/// the width `width`; of the image itself where the width is 0.
pub open spec fn thumb_url_with(base: Seq<u8>, name: Seq<u8>, width: u32, digest: Seq<u8>) -> Seq<u8> {
    let dirs = hash_dirs(digest);
    if width > 0 {
        without_trailing(base, SLASH) + lit("/images/thumb/") + dirs.0 + lit("/") + dirs.1 + lit("/")
            + name + lit("/") + decimal(width as nat) + lit("px-") + name
    } else {
        without_trailing(base, SLASH) + lit("/images/") + dirs.0 + lit("/") + dirs.1 + lit("/")
            + name
    }
}

/// The URL of the image `filename` at the width `width`.
pub open spec fn thumb_url(base: Seq<u8>, filename: Seq<u8>, width: u32) -> Seq<u8> {
    thumb_url_with(base, canonical_name(filename), width, md5_of(canonical_name(filename)))
}

/// The width that the parameters from the `k`-th on ask for: that of the
/// first that is plain text of the form `NNNpx`.
pub open spec fn width_px(params: Seq<FileParamView>, k: int) -> Option<u32>
    decreases params.len() - k,
{
    if k < 0 || k >= params.len() {
        None
    } else {
        match plain_text_from(params[k].content, 0, Seq::empty()) {
            Some(t) => if px_value(trimmed(t), false) is Some {
                px_value(trimmed(t), false)
            } else {
                width_px(params, k + 1)
            },
            None => width_px(params, k + 1),
        }
    }
}

/// The nodes of the caption of a file link: the content of its caption
/// parameter, or its target as text where it has none.
pub open spec fn caption_nodes(target: Seq<char>, params: Seq<FileParamView>) -> Seq<
    InlineNodeView,
> {
    match caption_index(params, params.len() as int) {
        Some(c) => params[c].content,
        None => seq![
            InlineNodeView {
                span: if params.len() > 0 {
                    params[0].span
                } else {
                    Span { start: 0, end: 0 }
                },
                kind: InlineKindView::Text { value: target },
            },
        ],
    }
}

/// A file link as a figure: the image, and under it the caption with the
/// caption's footnote markers.
#[verifier::opaque]
pub open spec fn figure_md(
    target: Seq<char>,
    params: Seq<FileParamView>,
    o: RenderOptionsView,
    refs: Seq<Seq<u8>>,
) -> Out {
    let nodes = caption_nodes(target, params);
    let d = display_md(nodes, 0, o, Seq::empty(), refs);
    let alt = if trimmed(d.text).len() == 0 {
        trimmed(encode_utf8(target))
    } else {
        trimmed(d.text)
    };
    let width = if o.respect_wikitext_image_width {
        match width_px(params, 0) {
            Some(w) => w,
            None => o.default_image_width_px,
        }
    } else {
        o.default_image_width_px
    };
    let m = markers_md(nodes, 0, o, d.refs);
    Out {
        text: lit("![") + trimmed(alt) + lit("](") + thumb_url(
            o.mediawiki_base_url,
            encode_utf8(target),
            width,
        ) + lit(")<br />*") + trimmed(alt) + lit("*") + m.text,
        refs: m.refs,
    }
}

/// The file link that stands alone among the first `k` nodes: the one file
/// link among them, provided that all the others are blank text.
pub open spec fn standalone_file(nodes: Seq<InlineNodeView>, k: int) -> Option<Option<int>>
    decreases k,
{
    if k <= 0 || k > nodes.len() {
        Some(None)
    } else {
        match standalone_file(nodes, k - 1) {
            None => None,
            Some(found) => match nodes[k - 1].kind {
                InlineKindView::FileLink { .. } => if found is Some {
                    None
                } else {
                    Some(Some(k - 1))
                },
                InlineKindView::Text { value } => if is_blank(
                    encode_utf8(value),
                    0,
                    encode_utf8(value).len() as int,
                ) {
                    Some(found)
                } else {
                    None
                },
                _ => None,
            },
        }
    }
}

/// The index of the image that the paragraph is: its content is one link to
/// a file or an image and nothing else but blank text.
pub open spec fn standalone_image(nodes: Seq<InlineNodeView>) -> Option<int> {
    match standalone_file(nodes, nodes.len() as int) {
        Some(Some(i)) => match nodes[i].kind {
            InlineKindView::FileLink { namespace, .. } => if namespace == FileNamespace::File
                || namespace == FileNamespace::Image {
                Some(i)
            } else {
                None
            },
            _ => None,
        },
        _ => None,
    }
}

pub open spec fn paragraph_md(content: Seq<InlineNodeView>, o: RenderOptionsView, refs: Seq<Seq<u8>>)
    -> Out {
    match (if o.render_file_links_as_images {
        standalone_image(content)
    } else {
        None
    }) {
        Some(i) => match content[i].kind {
            InlineKindView::FileLink { target, params, .. } => figure_md(target, params, o, refs),
            _ => inlines_md(content, 0, o, Seq::empty(), refs),
        },
        None => inlines_md(content, 0, o, Seq::empty(), refs),
    }
}

/// The heading's level as it is written: one deeper, between 2 and 6.
pub open spec fn shifted_level(level: u8) -> nat {
    if level < 1 {
        2
    } else if level >= 5 {
        6
    } else {
        (level + 1) as nat
    }
}

/// The anchor that the heading starts with: the `id` of a `<span>` that is
/// its first node.
pub open spec fn heading_anchor(content: Seq<InlineNodeView>) -> Option<Seq<char>> {
    if content.len() > 0 {
        match content[0].kind {
            InlineKindView::HtmlTag { name, attrs, .. } => if equals_ci(
                encode_utf8(name),
                0,
                encode_utf8(name).len() as int,
                lit("span"),
            ) {
                attr_value(attrs, lit("id"), 0)
            } else {
                None
            },
            _ => None,
        }
    } else {
        None
    }
}

pub open spec fn heading_md(
    level: u8,
    content: Seq<InlineNodeView>,
    o: RenderOptionsView,
    refs: Seq<Seq<u8>>,
) -> Out {
    let anchor = heading_anchor(content);
    let r = inlines_md(
        content,
        if anchor is Some {
            1
        } else {
            0
        },
        o,
        Seq::empty(),
        refs,
    );
    Out {
        text: (match anchor {
            Some(id) => lit("<a name=\"") + encode_utf8(id) + lit("\"></a>\n"),
            None => Seq::empty(),
        }) + repeated(35, shifted_level(level)) + seq![SPACE] + trimmed(r.text),
        refs: r.refs,
    }
}

pub open spec fn code_block_md(
    kind: CodeBlockKind,
    lang: Option<Seq<u8>>,
    text: Seq<u8>,
    o: RenderOptionsView,
) -> Seq<u8> {
    if kind == CodeBlockKind::LeadingSpace && o.leading_space_as_blockquote {
        prefixed(without_trailing(text, NL), lit("> "))
    } else {
        lit("```") + (match lang {
            Some(l) => trimmed(l),
            None => Seq::empty(),
        }) + seq![NL] + without_trailing(text, NL) + lit("\n```")
    }
}

/// The footnotes from the `k`-th on, one to a line.
pub open spec fn footnotes_md(refs: Seq<Seq<u8>>, k: int) -> Seq<u8>
    decreases refs.len() - k,
{
    if k < 0 || k >= refs.len() {
        Seq::empty()
    } else {
        lit("[^") + decimal((k + 1) as nat) + (if trimmed(refs[k]).len() == 0 {
            lit("]:\n")
        } else {
            lit("]: ") + trimmed(refs[k]) + seq![NL]
        }) + footnotes_md(refs, k + 1)
    }
}

/// The references: the footnotes gathered so far, under a heading where
/// `emit_heading` and the options ask for one. Nothing where there are no
/// footnotes.
pub open spec fn references_md(refs: Seq<Seq<u8>>, o: RenderOptionsView, emit_heading: bool) -> Seq<
    u8,
> {
    if refs.len() == 0 {
        Seq::empty()
    } else {
        without_trailing(
            (if emit_heading && o.emit_br_before_references {
                lit("<br/>\n\n")
            } else {
                Seq::empty()
            }) + (if emit_heading && o.emit_references_heading {
                lit("## References\n\n")
            } else {
                Seq::empty()
            }) + footnotes_md(refs, 0),
            NL,
        )
    }
}

pub open spec fn marker_md(m: ListMarker) -> Seq<u8> {
    if m == ListMarker::Ordered {
        lit("1. ")
    } else {
        lit("- ")
    }
}

/// What one block renders to.
pub open spec fn block_md(b: BlockNodeView, o: RenderOptionsView, refs: Seq<Seq<u8>>) -> Out
    decreases b, 0int,
{
    match b.kind {
        BlockKindView::Heading { level, content } => heading_md(level, content, o, refs),
        BlockKindView::Paragraph { content } => paragraph_md(content, o, refs),
        BlockKindView::List { items } => list_md(items, 0, o, refs, 0),
        BlockKindView::CodeBlock { kind, lang, text } => Out {
            text: code_block_md(kind, opt_utf8(lang), encode_utf8(text), o),
            refs,
        },
        BlockKindView::Table { table } => table_md(table, o, refs),
        BlockKindView::BlockQuote { blocks } => {
            let r = blocks_md(blocks, 0, o, refs);
            Out { text: prefixed(r.text, lit("> ")), refs: r.refs }
        },
        BlockKindView::HorizontalRule => Out { text: lit("---"), refs },
        BlockKindView::References { .. } => Out { text: references_md(refs, o, true), refs },
        BlockKindView::HtmlBlock { name, attrs, children, self_closing } => {
            if self_closing {
                Out { text: lit("<") + encode_utf8(name) + attrs_md(attrs, 0) + lit(" />"), refs }
            } else {
                let r = blocks_md(children, 0, o, refs);
                Out {
                    text: lit("<") + encode_utf8(name) + attrs_md(attrs, 0) + lit(">") + (
                    if children.len() > 0 {
                        seq![NL] + r.text + seq![NL]
                    } else {
                        Seq::empty()
                    }) + lit("</") + encode_utf8(name) + lit(">"),
                    refs: r.refs,
                }
            }
        },
        BlockKindView::MagicWord { name } => Out {
            text: lit("<!-- ") + encode_utf8(name) + lit(" -->"),
            refs,
        },
        BlockKindView::Raw { text } => Out {
            text: lit("```text\n") + without_trailing(encode_utf8(text), NL) + lit("\n```"),
            refs,
        },
    }
}

/// The blocks from the `k`-th on, with a blank line between them.
pub open spec fn blocks_md(
    blocks: Seq<BlockNodeView>,
    k: int,
    o: RenderOptionsView,
    refs: Seq<Seq<u8>>,
) -> Out
    decreases blocks, blocks.len() - k,
{
    if k < 0 || k >= blocks.len() {
        Out { text: Seq::empty(), refs }
    } else {
        let r = block_md(blocks[k], o, refs);
        let rest = blocks_md(blocks, k + 1, o, r.refs);
        Out {
            text: (if k > 0 {
                lit("\n\n")
            } else {
                Seq::empty()
            }) + r.text + rest.text,
            refs: rest.refs,
        }
    }
}

/// The blocks of a list item after its first, each on lines of its own and
/// indented.
pub open spec fn item_rest_md(
    blocks: Seq<BlockNodeView>,
    k: int,
    o: RenderOptionsView,
    refs: Seq<Seq<u8>>,
    pad: Seq<u8>,
) -> Out
    decreases blocks, blocks.len() - k,
{
    if k < 0 || k >= blocks.len() {
        Out { text: Seq::empty(), refs }
    } else {
        let r = block_md(blocks[k], o, refs);
        let rest = item_rest_md(blocks, k + 1, o, r.refs, pad);
        Out { text: seq![NL] + prefixed(r.text, pad) + rest.text, refs: rest.refs }
    }
}

/// One list item: its marker, then its first block on the same line where
/// that is a paragraph, then its other blocks indented.
pub open spec fn item_md(it: ListItemView, o: RenderOptionsView, refs: Seq<Seq<u8>>, indent: nat)
    -> Out
    decreases it, 1int,
{
    let pad = repeated(SPACE, indent) + lit("  ");
    if it.blocks.len() == 0 {
        Out { text: repeated(SPACE, indent) + marker_md(it.marker), refs }
    } else {
        let head = match it.blocks[0].kind {
            BlockKindView::Paragraph { content } => {
                let r = inlines_md(content, 0, o, Seq::empty(), refs);
                Out { text: trimmed(r.text), refs: r.refs }
            },
            _ => {
                let r = block_md(it.blocks[0], o, refs);
                Out { text: prefixed(r.text, pad), refs: r.refs }
            },
        };
        let rest = item_rest_md(it.blocks, 1, o, head.refs, pad);
        Out {
            text: repeated(SPACE, indent) + marker_md(it.marker) + head.text + rest.text,
            refs: rest.refs,
        }
    }
}

/// The items from the `k`-th on, one to a line.
pub open spec fn list_md(
    items: Seq<ListItemView>,
    k: int,
    o: RenderOptionsView,
    refs: Seq<Seq<u8>>,
    indent: nat,
) -> Out
    decreases items, items.len() - k,
{
    if k < 0 || k >= items.len() {
        Out { text: Seq::empty(), refs }
    } else {
        let r = item_md(items[k], o, refs, indent);
        let rest = list_md(items, k + 1, o, r.refs, indent);
        Out {
            text: (if k > 0 {
                seq![NL]
            } else {
                Seq::empty()
            }) + r.text + rest.text,
            refs: rest.refs,
        }
    }
}

/// How a column is aligned.
#[derive(Debug, Clone, Copy, PartialEq, Eq, Structural)]
pub enum TableColumnAlign {
    Left,
    Center,
    Right,
}

/// The alignment that `v` names.
pub open spec fn align_word(v: Seq<u8>) -> Option<TableColumnAlign> {
    let t = trimmed(v);
    let n = t.len() as int;
    if equals_ci(t, 0, n, lit("left")) {
        Some(TableColumnAlign::Left)
    } else if equals_ci(t, 0, n, lit("center")) {
        Some(TableColumnAlign::Center)
    } else if equals_ci(t, 0, n, lit("right")) {
        Some(TableColumnAlign::Right)
    } else {
        None
    }
}

/// The alignment that the first `align` attribute from the `k`-th on names.
pub open spec fn align_attr(attrs: Seq<HtmlAttrView>, k: int) -> Option<TableColumnAlign>
    decreases attrs.len() - k,
{
    if k < 0 || k >= attrs.len() {
        None
    } else {
        let here = if attr_is(attrs[k], lit("align")) {
            match attrs[k].value {
                Some(v) => align_word(encode_utf8(v)),
                None => None,
            }
        } else {
            None
        };
        if here is Some {
            here
        } else {
            align_attr(attrs, k + 1)
        }
    }
}

/// The alignment that the declarations of a style from `start` on give: that
/// of the first `text-align` declaration that names one.
pub open spec fn style_align(style: Seq<u8>, start: int) -> Option<TableColumnAlign>
    decreases style.len() - start,
{
    if start < 0 || start > style.len() {
        None
    } else {
        let end = match first_byte(style, start, style.len() as int, SEMI) {
            Some(p) => p,
            None => style.len() as int,
        };
        let d = trim_range(style, start, end);
        let here = match first_byte(style, d.0, d.1, COLON) {
            Some(c) => if equals_ci(
                style,
                trim_range(style, d.0, c).0,
                trim_range(style, d.0, c).1,
                lit("text-align"),
            ) {
                align_word(style.subrange(c + 1, d.1))
            } else {
                None
            },
            None => None,
        };
        if here is Some {
            here
        } else if start <= end < style.len() {
            style_align(style, end + 1)
        } else {
            None
        }
    }
}

/// The alignment that the `style` attributes from the `k`-th on give.
pub open spec fn style_attr(attrs: Seq<HtmlAttrView>, k: int) -> Option<TableColumnAlign>
    decreases attrs.len() - k,
{
    if k < 0 || k >= attrs.len() {
        None
    } else {
        let here = if attr_is(attrs[k], lit("style")) {
            match attrs[k].value {
                Some(v) => style_align(encode_utf8(v), 0),
                None => None,
            }
        } else {
            None
        };
        if here is Some {
            here
        } else {
            style_attr(attrs, k + 1)
        }
    }
}

/// The alignment that a cell's attributes ask for: an `align` attribute
/// first, else a `text-align` in a `style`.
pub open spec fn text_align(attrs: Seq<HtmlAttrView>) -> Option<TableColumnAlign> {
    if align_attr(attrs, 0) is Some {
        align_attr(attrs, 0)
    } else {
        style_attr(attrs, 0)
    }
}

/// What is known of a column after its first `n` rows.
pub struct ColumnFacts {
    pub any_cell: bool,
    pub all_headers: bool,
    pub any_data: bool,
    pub all_data_right: bool,
}

pub open spec fn column_facts(rows: Seq<TableRowView>, col: int, header: int, n: int) -> ColumnFacts
    decreases n,
{
    if n <= 0 || n > rows.len() {
        ColumnFacts { any_cell: false, all_headers: true, any_data: false, all_data_right: true }
    } else {
        let f = column_facts(rows, col, header, n - 1);
        let row = rows[n - 1];
        if 0 <= col < row.cells.len() {
            let cell = row.cells[col];
            let data = n - 1 != header && cell.kind == TableCellKind::Data;
            ColumnFacts {
                any_cell: true,
                all_headers: f.all_headers && cell.kind == TableCellKind::Header,
                any_data: f.any_data || data,
                all_data_right: f.all_data_right && !(data && text_align(cell.attrs) != Some(
                    TableColumnAlign::Right,
                )),
            }
        } else {
            f
        }
    }
}

/// A column is right-aligned where it has data cells and all of them are;
/// centred where it holds header cells only; left-aligned otherwise.
pub open spec fn column_align(rows: Seq<TableRowView>, col: int, header: int) -> TableColumnAlign {
    let f = column_facts(rows, col, header, rows.len() as int);
    if f.any_data && f.all_data_right {
        TableColumnAlign::Right
    } else if f.any_cell && f.all_headers {
        TableColumnAlign::Center
    } else {
        TableColumnAlign::Left
    }
}

pub open spec fn align_md(a: TableColumnAlign) -> Seq<u8> {
    match a {
        TableColumnAlign::Left => lit("---|"),
        TableColumnAlign::Center => lit(":---:|"),
        TableColumnAlign::Right => lit("----:|"),
    }
}

/// The alignment row of the columns from the `c`-th on.
pub open spec fn aligns_md(rows: Seq<TableRowView>, cols: int, header: int, c: int) -> Seq<u8>
    decreases cols - c,
{
    if c < 0 || c >= cols {
        Seq::empty()
    } else {
        align_md(column_align(rows, c, header)) + aligns_md(rows, cols, header, c + 1)
    }
}

/// What a cell renders to: its blocks on one line, joined by spaces, the
/// blank ones left out.
pub open spec fn cell_md(
    blocks: Seq<BlockNodeView>,
    k: int,
    o: RenderOptionsView,
    refs: Seq<Seq<u8>>,
    any: bool,
) -> Out
    decreases blocks, blocks.len() - k,
{
    if k < 0 || k >= blocks.len() {
        Out { text: Seq::empty(), refs }
    } else {
        let r = block_md(blocks[k], o, refs);
        let s = trimmed(replaced(r.text, NL, seq![SPACE]));
        let rest = cell_md(blocks, k + 1, o, r.refs, any || s.len() > 0);
        Out {
            text: (if s.len() > 0 && any {
                seq![SPACE] + s
            } else {
                s
            }) + rest.text,
            refs: rest.refs,
        }
    }
}

/// The cells of a row from the `k`-th on, rendered.
pub open spec fn row_cells_md(
    cells: Seq<TableCellView>,
    k: int,
    o: RenderOptionsView,
    refs: Seq<Seq<u8>>,
) -> (Seq<Seq<u8>>, Seq<Seq<u8>>)
    decreases cells, cells.len() - k,
{
    if k < 0 || k >= cells.len() {
        (Seq::empty(), refs)
    } else {
        let c = cell_md(cells[k].blocks, 0, o, refs, false);
        let rest = row_cells_md(cells, k + 1, o, c.refs);
        (seq![c.text] + rest.0, rest.1)
    }
}

/// The rows from the `k`-th on, each as its rendered cells.
pub open spec fn rows_cells_md(
    rows: Seq<TableRowView>,
    k: int,
    o: RenderOptionsView,
    refs: Seq<Seq<u8>>,
) -> (Seq<Seq<Seq<u8>>>, Seq<Seq<u8>>)
    decreases rows, rows.len() - k,
{
    if k < 0 || k >= rows.len() {
        (Seq::empty(), refs)
    } else {
        let r = row_cells_md(rows[k].cells, 0, o, refs);
        let rest = rows_cells_md(rows, k + 1, o, r.1);
        (seq![r.0] + rest.0, rest.1)
    }
}

/// The widest of the first `n` rows.
pub open spec fn widest(rows: Seq<Seq<Seq<u8>>>, n: int) -> int
    decreases n,
{
    if n <= 0 || n > rows.len() {
        0
    } else if rows[n - 1].len() > widest(rows, n - 1) {
        rows[n - 1].len() as int
    } else {
        widest(rows, n - 1)
    }
}

/// The index of the first row from the `k`-th on that holds a header cell.
pub open spec fn header_row_from(rows: Seq<TableRowView>, k: int) -> Option<int>
    decreases rows.len() - k,
{
    if k < 0 || k >= rows.len() {
        None
    } else if has_header(rows[k].cells, 0) {
        Some(k)
    } else {
        header_row_from(rows, k + 1)
    }
}

pub open spec fn has_header(cells: Seq<TableCellView>, k: int) -> bool
    decreases cells.len() - k,
{
    if k < 0 || k >= cells.len() {
        false
    } else {
        cells[k].kind == TableCellKind::Header || has_header(cells, k + 1)
    }
}

/// One line of a table: the first `cols` cells of the row from the `c`-th
/// on, an empty cell where the row is short; every `|` in a cell escaped.
pub open spec fn row_md(row: Seq<Seq<u8>>, cols: int, c: int) -> Seq<u8>
    decreases cols - c,
{
    if c < 0 || c >= cols {
        Seq::empty()
    } else {
        seq![SPACE] + (if c < row.len() {
            replaced(row[c], 124, lit("\\|"))
        } else {
            Seq::empty()
        }) + lit(" |") + row_md(row, cols, c + 1)
    }
}

/// The lines of the rows from the `k`-th on, the header row left out.
pub open spec fn body_md(rows: Seq<Seq<Seq<u8>>>, cols: int, header: int, k: int) -> Seq<u8>
    decreases rows.len() - k,
{
    if k < 0 || k >= rows.len() {
        Seq::empty()
    } else if k == header {
        body_md(rows, cols, header, k + 1)
    } else {
        lit("|") + row_md(rows[k], cols, 0) + seq![NL] + body_md(rows, cols, header, k + 1)
    }
}

/// The text of a table with rows: the caption on a line of its own, then
/// the header row, the alignment row and the other rows. The header row is
/// the first that holds a header cell, or the first row. With the centring
/// option the whole is wrapped in a centring container.
pub open spec fn table_text(
    table_rows: Seq<TableRowView>,
    caption: Seq<u8>,
    rows: Seq<Seq<Seq<u8>>>,
    o: RenderOptionsView,
) -> Seq<u8> {
    let cols = widest(rows, rows.len() as int);
    let header = match header_row_from(table_rows, 0) {
        Some(h) => h,
        None => 0,
    };
    let lines = without_trailing(
        lit("|") + row_md(rows[header], cols, 0) + seq![NL] + lit("|") + aligns_md(
            table_rows,
            cols,
            header,
            0,
        ) + seq![NL] + body_md(rows, cols, header, 0),
        NL,
    );
    let titled = (if caption.len() > 0 {
        caption + lit("\n\n")
    } else {
        Seq::empty()
    }) + lines;
    without_trailing(
        if o.center_tables_and_captions {
            lit("<div style=\"display:flex; flex-direction:column; align-items:center;\">\n\n")
                + titled + lit("\n\n</div>")
        } else {
            titled
        },
        NL,
    )
}

/// What a table renders to: its caption and cells are rendered in their
/// order, and laid out as `table_text` says; a table without rows is its
/// caption.
pub open spec fn table_md(t: TableView, o: RenderOptionsView, refs: Seq<Seq<u8>>) -> Out
    decreases t, 1int,
{
    let cap = match t.caption {
        Some(c) => inlines_md(c.content, 0, o, Seq::empty(), refs),
        None => Out { text: Seq::empty(), refs },
    };
    let cells = rows_cells_md(t.rows, 0, o, cap.refs);
    Out {
        text: if cells.0.len() == 0 {
            without_trailing(trimmed(cap.text), NL)
        } else {
            table_text(t.rows, trimmed(cap.text), cells.0, o)
        },
        refs: cells.1,
    }
}

/// Renders the nodes from the `k`-th on, the footnote markers left out.
fn render_display(nodes: &Vec<InlineNode>, ctx: &mut RenderContext, opts: &RenderOptions) -> (out:
    Vec<u8>)
    ensures
        out@ == display_md(inlines_view(nodes@), 0, opts@, Seq::empty(), old(ctx)@).text,
        final(ctx)@ == display_md(inlines_view(nodes@), 0, opts@, Seq::empty(), old(ctx)@).refs,
{
    let ghost nv = inlines_view(nodes@);
    let ghost goal = display_md(nv, 0, opts@, Seq::empty(), ctx@);
    let mut out: Vec<u8> = Vec::new();
    let mut k: usize = 0;
    while k < nodes.len()
        invariant
            nv == inlines_view(nodes@),
            display_md(nv, k as int, opts@, out@, ctx@) == goal,
        decreases nodes.len() - k,
    {
        let node = &nodes[k];
        assert(nv[k as int] == inline_view(*node));
        let is_ref = match &node.kind {
            InlineKind::Ref { .. } => true,
            _ => false,
        };
        if !is_ref {
            let text = render_inline(node, ctx, opts);
            push_display_piece(&mut out, node, opts, text);
        }
        k = k + 1;
    }
    out
}

fn push_display_piece(out: &mut Vec<u8>, node: &InlineNode, opts: &RenderOptions, text: Vec<u8>)
    ensures
        final(out)@ == old(out)@ + piece_md(inline_view(*node), opts@, old(out)@, text@),
{
    let plain = match &node.kind {
        InlineKind::Text { .. } => true,
        InlineKind::Raw { .. } => true,
        _ => false,
    };
    let starred = if opts.obsidian_text_asterisk_workaround && plain {
        replace_byte(
            text.as_slice(),
            42,
            opts.obsidian_text_asterisk_replacement.as_str().as_bytes(),
        )
    } else {
        text
    };
    let n: usize = out.len();
    if n > 0 && out[n - 1] == NL {
        let from = crate::parse::blocks::skip_space_tab(starred.as_slice(), 0, starred.len());
        out.extend_from_slice(&starred.as_slice()[from..starred.len()]);
    } else {
        out.extend_from_slice(starred.as_slice());
    }
}

/// Renders the footnote markers among the nodes.
fn render_markers(nodes: &Vec<InlineNode>, ctx: &mut RenderContext, opts: &RenderOptions) -> (out:
    Vec<u8>)
    ensures
        out@ == markers_md(inlines_view(nodes@), 0, opts@, old(ctx)@).text,
        final(ctx)@ == markers_md(inlines_view(nodes@), 0, opts@, old(ctx)@).refs,
{
    let ghost nv = inlines_view(nodes@);
    let ghost goal = markers_md(nv, 0, opts@, ctx@);
    let mut out: Vec<u8> = Vec::new();
    let mut k: usize = 0;
    assert(out@ + goal.text =~= goal.text);
    while k < nodes.len()
        invariant
            k <= nodes.len(),
            nv == inlines_view(nodes@),
            out@ + markers_md(nv, k as int, opts@, ctx@).text =~= goal.text,
            markers_md(nv, k as int, opts@, ctx@).refs == goal.refs,
        decreases nodes.len() - k,
    {
        let node = &nodes[k];
        assert(nv[k as int] == inline_view(*node));
        let is_ref = match &node.kind {
            InlineKind::Ref { .. } => true,
            _ => false,
        };
        if is_ref {
            let ghost out0 = out@;
            let ghost here = markers_md(nv, k as int, opts@, ctx@);
            let text = render_inline(node, ctx, opts);
            push_bytes(&mut out, text.as_slice());
            proof {
                let rest = markers_md(nv, k + 1, opts@, ctx@);
                assert(here.text == text@ + rest.text);
                assert(out@ + rest.text =~= out0 + here.text);
            }
        }
        k = k + 1;
    }
    assert(markers_md(nv, k as int, opts@, ctx@).text =~= Seq::empty());
    out
}

/// The length in bytes of the character that starts with the byte `b`.
fn first_width(b: u8) -> (w: usize)
    ensures
        w == (if b <= 0x7f {
            1int
        } else if 0xc0 <= b <= 0xdf {
            2int
        } else if 0xe0 <= b <= 0xef {
            3int
        } else {
            4int
        }),
{
    if b <= 0x7f {
        1
    } else if 0xc0 <= b && b <= 0xdf {
        2
    } else if 0xe0 <= b && b <= 0xef {
        3
    } else {
        4
    }
}

/// Puts a file name into the form under which the wiki stores it.
#[verifier::rlimit(40)]
pub fn canonicalize_mediawiki_filename(filename: &str) -> (out: Vec<u8>)
    ensures
        out@ == canonical_name(filename.spec_bytes()),
{
    proof {
        lemma_space_lit();
        encode_utf8_valid_utf8(filename@);
    }
    let b = filename.as_bytes();
    let (a, e) = trim(b, 0, b.len());
    let ghost t = trimmed(b@);
    if a >= e {
        return Vec::new();
    }
    proof {
        lemma_trim_start_boundary(b@, 0, b@.len() as int);
        is_char_boundary_start_end_of_seq(b@);
        crate::parse::util::lemma_trim_end_boundary(b@, a as int, b@.len() as int);
        vstd::utf8::valid_utf8_split(b@, e as int);
    }
    let (head, _) = filename.split_at(e);
    proof {
        let hb = head.spec_bytes();
        assert(hb =~= b@.subrange(0, e as int));
        is_char_boundary_iff_not_is_continuation_byte(b@, a as int);
        assert(hb[a as int] == b@[a as int]);
        is_char_boundary_iff_not_is_continuation_byte(hb, a as int);
        vstd::utf8::valid_utf8_split(hb, a as int);
    }
    let (_, tail) = head.split_at(a);
    let tb = tail.as_bytes();
    assert(tb@ =~= t);
    proof {
        encode_utf8_valid_utf8(tail@);
        encode_utf8_decode_utf8(tail@);
        assert(tail@.len() > 0) by {
            if tail@.len() == 0 {
                assert(encode_utf8(tail@) =~= Seq::empty());
            }
        }
    }
    let c = tail.get_char(0);
    let w = first_width(tb[0]);
    proof {
        assert(valid_utf8(t));
        assert(decode_utf8(t) == tail@);
        assert(c == decode_first_scalar(t) as char);
        assert(w == length_of_first_scalar(t));
        assert(w <= t.len()) by {
            reveal_with_fuel(valid_utf8, 1);
        }
    }
    let upper = char_upper(c);
    let mut out: Vec<u8> = Vec::new();
    push_str(&mut out, upper.as_str());
    let rest = replace_byte(&tb[w..tb.len()], SPACE, "_".as_bytes());
    push_bytes(&mut out, rest.as_slice());
    out
}

/// Builds the URL of an image from the name under which it is stored and
/// the digest of that name.
pub fn mediawiki_thumb_url_with(base: &[u8], name: &[u8], width_px: u32, digest: &[u8]) -> (out: Vec<
    u8,
>)
    requires
        digest@.len() > 0,
    ensures
        out@ == thumb_url_with(base@, name@, width_px, digest@),
{
    let base_end = skip_byte_run_back(base, 0, base.len(), SLASH);
    let d = digest[0];
    let hi = hex(d / 16);
    let lo = hex(d % 16);
    let mut out: Vec<u8> = Vec::new();
    out.extend_from_slice(&base[0..base_end]);
    if width_px > 0 {
        push_str(&mut out, "/images/thumb/");
    } else {
        push_str(&mut out, "/images/");
    }
    out.push(hi);
    push_str(&mut out, "/");
    out.push(hi);
    out.push(lo);
    push_str(&mut out, "/");
    push_bytes(&mut out, name);
    if width_px > 0 {
        push_str(&mut out, "/");
        push_decimal(&mut out, width_px as usize);
        push_str(&mut out, "px-");
        push_bytes(&mut out, name);
        assert(out@ =~= thumb_url_with(base@, name@, width_px, digest@));
    } else {
        assert(out@ =~= thumb_url_with(base@, name@, width_px, digest@));
    }
    out
}

/// Builds the URL of the image `filename` at the width `width_px`.
pub fn mediawiki_file_thumb_url(base: &str, filename: &str, width_px: u32) -> (out: Vec<u8>)
    ensures
        out@ == thumb_url(base.spec_bytes(), filename.spec_bytes(), width_px),
{
    let name = canonicalize_mediawiki_filename(filename);
    let digest = md5_digest(name.as_slice());
    mediawiki_thumb_url_with(base.as_bytes(), name.as_slice(), width_px, digest.as_slice())
}

/// Reads the width that the link's parameters ask for.
pub fn file_link_width_px(link: &FileLink) -> (r: Option<u32>)
    ensures
        r == width_px(file_params_view(link.params@), 0),
{
    let ghost pv = file_params_view(link.params@);
    let mut k: usize = 0;
    while k < link.params.len()
        invariant
            k <= link.params.len(),
            pv == file_params_view(link.params@),
            width_px(pv, k as int) == width_px(pv, 0),
        decreases link.params.len() - k,
    {
        assert(pv[k as int].content == inlines_view(link.params@[k as int].content@));
        match file_param_plain_text(&link.params[k]) {
            Some(token) => {
                let t = trimmed_copy(token.as_slice());
                let px = parse_px(t.as_slice(), false);
                if px.is_some() {
                    return px;
                }
            },
            None => {},
        }
        k = k + 1;
    }
    None
}

/// Renders a file link as a figure.
#[verifier::rlimit(40)]
fn render_file_figure(link: &FileLink, ctx: &mut RenderContext, opts: &RenderOptions) -> (out: Vec<
    u8,
>)
    ensures
        out@ == figure_md(link.target@, file_params_view(link.params@), opts@, old(ctx)@).text,
        final(ctx)@ == figure_md(
            link.target@,
            file_params_view(link.params@),
            opts@,
            old(ctx)@,
        ).refs,
{
    reveal(figure_md);
    let ghost pv = file_params_view(link.params@);
    let ghost refs0 = ctx@;
    let cap = find_caption(&link.params);
    let mut own: Vec<InlineNode> = Vec::new();
    match cap {
        Some(c) => {
            assert(pv[c as int].content == inlines_view(link.params@[c as int].content@));
        },
        None => {
            let span = if link.params.len() > 0 {
                assert(pv[0].span == link.params@[0].span);
                link.params[0].span
            } else {
                Span { start: 0, end: 0 }
            };
            own.push(InlineNode { span, kind: InlineKind::Text { value: link.target.clone() } });
            assert(inlines_view(own@) =~= caption_nodes(link.target@, pv));
        },
    }
    let nodes: &Vec<InlineNode> = match cap {
        Some(c) => &link.params[c].content,
        None => &own,
    };
    assert(inlines_view(nodes@) == caption_nodes(link.target@, pv));
    let shown = render_display(nodes, ctx, opts);
    let caption = trimmed_copy(shown.as_slice());
    let alt = if caption.len() == 0 {
        trimmed_copy(link.target.as_str().as_bytes())
    } else {
        caption
    };
    let width = if opts.respect_wikitext_image_width {
        match file_link_width_px(link) {
            Some(w) => w,
            None => opts.default_image_width_px,
        }
    } else {
        opts.default_image_width_px
    };
    let url = mediawiki_file_thumb_url(
        opts.mediawiki_base_url.as_str(),
        link.target.as_str(),
        width,
    );
    let markers = render_markers(nodes, ctx, opts);
    let mut out: Vec<u8> = Vec::new();
    push_str(&mut out, "![");
    push_trimmed(&mut out, alt.as_slice());
    push_str(&mut out, "](");
    push_bytes(&mut out, url.as_slice());
    push_str(&mut out, ")<br />*");
    push_trimmed(&mut out, alt.as_slice());
    push_str(&mut out, "*");
    push_bytes(&mut out, markers.as_slice());
    assert(out@ =~= lit("![") + trimmed(alt@) + lit("](") + url@ + lit(")<br />*") + trimmed(alt@)
        + lit("*") + markers@);
    out
}

/// Finds the file link that stands alone in a paragraph.
pub fn extract_standalone_file_link(content: &Vec<InlineNode>) -> (r: Option<usize>)
    ensures
        match r {
            Some(i) => standalone_file(inlines_view(content@), content@.len() as int) == Some(
                Some(i as int),
            ) && i < content@.len(),
            None => standalone_file(inlines_view(content@), content@.len() as int) is None
                || standalone_file(inlines_view(content@), content@.len() as int) == Some(
                None::<int>,
            ),
        },
{
    let ghost nv = inlines_view(content@);
    let mut file: Option<usize> = None;
    let mut k: usize = 0;
    while k < content.len()
        invariant
            k <= content.len(),
            nv == inlines_view(content@),
            standalone_file(nv, k as int) == Some(crate::text::opt_int(file)),
            file matches Some(i) ==> i < k,
        decreases content.len() - k,
    {
        assert(nv[k as int] == inline_view(content@[k as int]));
        match &content[k].kind {
            InlineKind::FileLink { .. } => {
                if file.is_some() {
                    proof {
                        lemma_standalone_stays_none(nv, k + 1, content@.len() as int);
                    }
                    return None;
                }
                file = Some(k);
            },
            InlineKind::Text { value } => {
                let vb = value.as_str().as_bytes();
                if !blank(vb, 0, vb.len()) {
                    proof {
                        lemma_standalone_stays_none(nv, k + 1, content@.len() as int);
                    }
                    return None;
                }
            },
            _ => {
                proof {
                    lemma_standalone_stays_none(nv, k + 1, content@.len() as int);
                }
                return None;
            },
        }
        k = k + 1;
    }
    file
}

proof fn lemma_standalone_stays_none(nodes: Seq<InlineNodeView>, k: int, n: int)
    requires
        0 <= k <= n <= nodes.len(),
        standalone_file(nodes, k) is None,
    ensures
        standalone_file(nodes, n) is None,
    decreases n - k,
{
    if k < n {
        lemma_standalone_stays_none(nodes, k, n - 1);
    }
}

/// Finds the image that a paragraph is.
fn standalone_image_of(content: &Vec<InlineNode>) -> (r: Option<usize>)
    ensures
        crate::text::opt_int(r) == standalone_image(inlines_view(content@)),
        r matches Some(i) ==> i < content@.len() && content@[i as int].kind is FileLink,
{
    match extract_standalone_file_link(content) {
        Some(i) => {
            assert(inlines_view(content@)[i as int] == inline_view(content@[i as int]));
            match &content[i].kind {
                InlineKind::FileLink { link } => match link.namespace {
                    FileNamespace::File => Some(i),
                    FileNamespace::Image => Some(i),
                    FileNamespace::Media => None,
                },
                _ => None,
            }
        },
        None => None,
    }
}

/// Renders a paragraph.
#[verifier::rlimit(40)]
fn render_paragraph(content: &Vec<InlineNode>, ctx: &mut RenderContext, opts: &RenderOptions) -> (out:
    Vec<u8>)
    ensures
        out@ == paragraph_md(inlines_view(content@), opts@, old(ctx)@).text,
        final(ctx)@ == paragraph_md(inlines_view(content@), opts@, old(ctx)@).refs,
{
    if opts.render_file_links_as_images {
        if let Some(i) = standalone_image_of(content) {
            assert(inlines_view(content@)[i as int] == inline_view(content@[i as int]));
            match &content[i].kind {
                InlineKind::FileLink { link } => {
                    return render_file_figure(link, ctx, opts);
                },
                _ => {},
            }
        }
    }
    render_inlines(content, 0, ctx, opts)
}

/// Tells whether the block is a paragraph that is an image.
pub fn block_is_standalone_image_paragraph(block: &BlockNode, opts: &RenderOptions) -> (r: bool)
    ensures
        r == (opts.render_file_links_as_images && match block_view(*block).kind {
            BlockKindView::Paragraph { content } => standalone_image(content) is Some,
            _ => false,
        }),
{
    if !opts.render_file_links_as_images {
        return false;
    }
    match &block.kind {
        BlockKind::Paragraph { content } => standalone_image_of(content).is_some(),
        _ => false,
    }
}

/// Renders a heading.
fn render_heading(level: u8, content: &Vec<InlineNode>, ctx: &mut RenderContext, opts: &RenderOptions)
    -> (out: Vec<u8>)
    ensures
        out@ == heading_md(level, inlines_view(content@), opts@, old(ctx)@).text,
        final(ctx)@ == heading_md(level, inlines_view(content@), opts@, old(ctx)@).refs,
{
    let ghost nv = inlines_view(content@);
    let anchor = if content.len() > 0 {
        assert(nv[0] == inline_view(content@[0]));
        match &content[0].kind {
            InlineKind::HtmlTag { node } => {
                let name = node.name.as_str().as_bytes();
                if eq_ci(name, 0, name.len(), "span".as_bytes()) {
                    find_attr_value(&node.attrs, "id".as_bytes())
                } else {
                    None
                }
            },
            _ => None,
        }
    } else {
        None
    };
    assert(opt_string_view(anchor) == heading_anchor(nv));
    let mut out: Vec<u8> = Vec::new();
    let from: usize = match &anchor {
        Some(id) => {
            push_str(&mut out, "<a name=\"");
            push_str(&mut out, id.as_str());
            push_str(&mut out, "\"></a>\n");
            1
        },
        None => 0,
    };
    let ghost prefix = out@;
    let hashes: usize = if level < 1 {
        2
    } else if level >= 5 {
        6
    } else {
        (level + 1) as usize
    };
    push_repeated(&mut out, 35, hashes);
    out.push(SPACE);
    let title = render_inlines(content, from, ctx, opts);
    push_trimmed(&mut out, title.as_slice());
    assert(out@ =~= prefix + repeated(35, shifted_level(level)) + seq![SPACE] + trimmed(title@));
    assert(prefix =~= match heading_anchor(nv) {
        Some(id) => lit("<a name=\"") + encode_utf8(id) + lit("\"></a>\n"),
        None => Seq::empty(),
    });
    out
}

/// Renders a code block.
fn render_code_block(block: &CodeBlock, opts: &RenderOptions) -> (out: Vec<u8>)
    ensures
        out@ == code_block_md(
            block.kind,
            opt_utf8(opt_string_view(block.lang)),
            encode_utf8(block.text@),
            opts@,
        ),
{
    let text = block.text.as_str().as_bytes();
    let end = skip_byte_run_back(text, 0, text.len(), NL);
    let quote = match block.kind {
        CodeBlockKind::LeadingSpace => opts.leading_space_as_blockquote,
        _ => false,
    };
    if quote {
        return prefix_lines(&text[0..end], "> ".as_bytes());
    }
    let mut out: Vec<u8> = Vec::new();
    push_str(&mut out, "```");
    match &block.lang {
        Some(l) => {
            push_trimmed(&mut out, l.as_str().as_bytes());
        },
        None => {},
    }
    out.push(NL);
    out.extend_from_slice(&text[0..end]);
    push_str(&mut out, "\n```");
    assert(out@ =~= lit("```") + (match opt_utf8(opt_string_view(block.lang)) {
        Some(l) => trimmed(l),
        None => Seq::empty(),
    }) + seq![NL] + without_trailing(text@, NL) + lit("\n```"));
    out
}

/// Renders the references.
pub fn render_references(ctx: &RenderContext, opts: &RenderOptions, emit_heading: bool) -> (out: Vec<
    u8,
>)
    ensures
        out@ == references_md(ctx@, opts@, emit_heading),
{
    if ctx.refs.len() == 0 {
        return Vec::new();
    }
    let mut out: Vec<u8> = Vec::new();
    if emit_heading && opts.emit_br_before_references {
        push_str(&mut out, "<br/>\n\n");
    }
    if emit_heading && opts.emit_references_heading {
        push_str(&mut out, "## References\n\n");
    }
    let ghost head = out@;
    let ghost refs = ctx@;
    let mut k: usize = 0;
    assert(out@ + footnotes_md(refs, 0) =~= head + footnotes_md(refs, 0));
    while k < ctx.refs.len()
        invariant
            k <= ctx.refs.len(),
            refs == ctx@,
            out@ + footnotes_md(refs, k as int) =~= head + footnotes_md(refs, 0),
        decreases ctx.refs.len() - k,
    {
        let ghost out0 = out@;
        let body = trimmed_copy(ctx.refs[k].as_slice());
        assert(refs[k as int] == ctx.refs@[k as int]@);
        push_str(&mut out, "[^");
        push_decimal(&mut out, k + 1);
        if body.len() == 0 {
            push_str(&mut out, "]:\n");
        } else {
            push_str(&mut out, "]: ");
            push_bytes(&mut out, body.as_slice());
            out.push(NL);
        }
        assert(out@ =~= out0 + (lit("[^") + decimal((k + 1) as nat) + (if trimmed(refs[k as int]).len()
            == 0 {
            lit("]:\n")
        } else {
            lit("]: ") + trimmed(refs[k as int]) + seq![NL]
        })));
        assert(out@ + footnotes_md(refs, k + 1) =~= out0 + footnotes_md(refs, k as int));
        k = k + 1;
    }
    assert(footnotes_md(refs, k as int) =~= Seq::empty());
    let end = skip_byte_run_back(out.as_slice(), 0, out.len(), NL);
    out.truncate(end);
    assert(out@ =~= without_trailing(head + footnotes_md(refs, 0), NL));
    out
}


fn align_of_word(v: &[u8]) -> (r: Option<TableColumnAlign>)
    ensures
        r == align_word(v@),
{
    let t = trimmed_copy(v);
    let n: usize = t.len();
    if eq_ci(t.as_slice(), 0, n, "left".as_bytes()) {
        Some(TableColumnAlign::Left)
    } else if eq_ci(t.as_slice(), 0, n, "center".as_bytes()) {
        Some(TableColumnAlign::Center)
    } else if eq_ci(t.as_slice(), 0, n, "right".as_bytes()) {
        Some(TableColumnAlign::Right)
    } else {
        None
    }
}

fn align_of_style(style: &[u8]) -> (r: Option<TableColumnAlign>)
    ensures
        r == style_align(style@, 0),
{
    let mut start: usize = 0;
    loop
        invariant
            start <= style.len(),
            style_align(style@, start as int) == style_align(style@, 0),
        decreases style.len() - start,
    {
        let end = match find_byte(style, start, style.len(), SEMI) {
            Some(p) => p,
            None => style.len(),
        };
        let (d0, d1) = trim(style, start, end);
        match find_byte(style, d0, d1, COLON) {
            Some(c) => {
                let (k0, k1) = trim(style, d0, c);
                if eq_ci(style, k0, k1, "text-align".as_bytes()) {
                    let here = align_of_word(&style[c + 1..d1]);
                    if here.is_some() {
                        return here;
                    }
                }
            },
            None => {},
        }
        if end < style.len() {
            start = end + 1;
        } else {
            return None;
        }
    }
}

/// Reads the alignment that a cell's attributes ask for.
pub fn parse_text_align_from_attrs(attrs: &Vec<HtmlAttr>) -> (r: Option<TableColumnAlign>)
    ensures
        r == text_align(attrs_view(attrs@)),
{
    let ghost av = attrs_view(attrs@);
    let mut k: usize = 0;
    while k < attrs.len()
        invariant
            k <= attrs.len(),
            av == attrs_view(attrs@),
            align_attr(av, k as int) == align_attr(av, 0),
        decreases attrs.len() - k,
    {
        let a = &attrs[k];
        assert(av[k as int] == a@);
        let nb = a.name.as_str().as_bytes();
        if eq_ci(nb, 0, nb.len(), "align".as_bytes()) {
            match &a.value {
                Some(v) => {
                    let here = align_of_word(v.as_str().as_bytes());
                    if here.is_some() {
                        return here;
                    }
                },
                None => {},
            }
        }
        k = k + 1;
    }
    let mut j: usize = 0;
    while j < attrs.len()
        invariant
            j <= attrs.len(),
            av == attrs_view(attrs@),
            align_attr(av, 0) is None,
            style_attr(av, j as int) == style_attr(av, 0),
        decreases attrs.len() - j,
    {
        let a = &attrs[j];
        assert(av[j as int] == a@);
        let nb = a.name.as_str().as_bytes();
        if eq_ci(nb, 0, nb.len(), "style".as_bytes()) {
            match &a.value {
                Some(v) => {
                    let here = align_of_style(v.as_str().as_bytes());
                    if here.is_some() {
                        return here;
                    }
                },
                None => {},
            }
        }
        j = j + 1;
    }
    None
}

/// Works out the alignment of one column.
fn compute_column_alignment(table: &Table, col: usize, header: usize) -> (r: TableColumnAlign)
    ensures
        r == column_align(rows_view(table.rows@), col as int, header as int),
{
    let ghost rv = rows_view(table.rows@);
    let mut any_cell = false;
    let mut all_headers = true;
    let mut any_data = false;
    let mut all_data_right = true;
    let mut n: usize = 0;
    while n < table.rows.len()
        invariant
            n <= table.rows.len(),
            rv == rows_view(table.rows@),
            column_facts(rv, col as int, header as int, n as int) == (ColumnFacts {
                any_cell,
                all_headers,
                any_data,
                all_data_right,
            }),
        decreases table.rows.len() - n,
    {
        let row = &table.rows[n];
        assert(rv[n as int] == row_view(*row));
        if col < row.cells.len() {
            let cell = &row.cells[col];
            assert(rv[n as int].cells[col as int] == cell_view(*cell));
            let is_header = match cell.kind {
                TableCellKind::Header => true,
                TableCellKind::Data => false,
            };
            any_cell = true;
            if !is_header {
                all_headers = false;
            }
            if n != header && !is_header {
                any_data = true;
                let right = match parse_text_align_from_attrs(&cell.attrs) {
                    Some(TableColumnAlign::Right) => true,
                    _ => false,
                };
                if !right {
                    all_data_right = false;
                }
            }
        }
        n = n + 1;
    }
    if any_data && all_data_right {
        TableColumnAlign::Right
    } else if any_cell && all_headers {
        TableColumnAlign::Center
    } else {
        TableColumnAlign::Left
    }
}

/// Writes the alignment row.
fn push_alignments(out: &mut Vec<u8>, table: &Table, cols: usize, header: usize)
    ensures
        final(out)@ == old(out)@ + aligns_md(
            rows_view(table.rows@),
            cols as int,
            header as int,
            0,
        ),
{
    let ghost rv = rows_view(table.rows@);
    let ghost goal = aligns_md(rv, cols as int, header as int, 0);
    let mut c: usize = 0;
    assert(out@ + goal =~= old(out)@ + goal);
    while c < cols
        invariant
            c <= cols,
            rv == rows_view(table.rows@),
            out@ + aligns_md(rv, cols as int, header as int, c as int) =~= old(out)@ + goal,
        decreases cols - c,
    {
        let ghost out0 = out@;
        match compute_column_alignment(table, c, header) {
            TableColumnAlign::Left => push_str(out, "---|"),
            TableColumnAlign::Center => push_str(out, ":---:|"),
            TableColumnAlign::Right => push_str(out, "----:|"),
        }
        assert(out@ == out0 + align_md(column_align(rv, c as int, header as int)));
        assert(out@ + aligns_md(rv, cols as int, header as int, c + 1) =~= out0 + aligns_md(
            rv,
            cols as int,
            header as int,
            c as int,
        ));
        c = c + 1;
    }
    assert(aligns_md(rv, cols as int, header as int, c as int) =~= Seq::empty());
}

pub open spec fn row_texts(row: Seq<Vec<u8>>) -> Seq<Seq<u8>> {
    Seq::new(row.len(), |i: int| row[i]@)
}

pub open spec fn rows_texts(rows: Seq<Vec<Vec<u8>>>) -> Seq<Seq<Seq<u8>>> {
    Seq::new(rows.len(), |i: int| row_texts(rows[i]@))
}

/// Writes one line of a table.
fn push_row(out: &mut Vec<u8>, row: &Vec<Vec<u8>>, cols: usize)
    ensures
        final(out)@ == old(out)@ + row_md(row_texts(row@), cols as int, 0),
{
    let ghost rt = row_texts(row@);
    let ghost goal = row_md(rt, cols as int, 0);
    let mut c: usize = 0;
    assert(out@ + goal =~= old(out)@ + goal);
    while c < cols
        invariant
            c <= cols,
            rt == row_texts(row@),
            out@ + row_md(rt, cols as int, c as int) =~= old(out)@ + goal,
        decreases cols - c,
    {
        let ghost out0 = out@;
        out.push(SPACE);
        if c < row.len() {
            assert(rt[c as int] == row@[c as int]@);
            let cell = replace_byte(row[c].as_slice(), 124, "\\|".as_bytes());
            push_bytes(out, cell.as_slice());
        }
        push_str(out, " |");
        assert(out@ =~= out0 + (seq![SPACE] + (if c < rt.len() {
            replaced(rt[c as int], 124, lit("\\|"))
        } else {
            Seq::empty()
        }) + lit(" |")));
        assert(out@ + row_md(rt, cols as int, c + 1) =~= out0 + row_md(rt, cols as int, c as int));
        c = c + 1;
    }
    assert(row_md(rt, cols as int, c as int) =~= Seq::empty());
}

/// Writes the lines of the rows but the header row.
fn push_body(out: &mut Vec<u8>, rows: &Vec<Vec<Vec<u8>>>, cols: usize, header: usize)
    ensures
        final(out)@ == old(out)@ + body_md(rows_texts(rows@), cols as int, header as int, 0),
{
    let ghost rt = rows_texts(rows@);
    let ghost goal = body_md(rt, cols as int, header as int, 0);
    let mut k: usize = 0;
    assert(out@ + goal =~= old(out)@ + goal);
    while k < rows.len()
        invariant
            k <= rows.len(),
            rt == rows_texts(rows@),
            out@ + body_md(rt, cols as int, header as int, k as int) =~= old(out)@ + goal,
        decreases rows.len() - k,
    {
        let ghost out0 = out@;
        if k != header {
            assert(rt[k as int] == row_texts(rows@[k as int]@));
            push_str(out, "|");
            push_row(out, &rows[k], cols);
            out.push(NL);
            assert(out@ =~= out0 + (lit("|") + row_md(rt[k as int], cols as int, 0) + seq![NL]));
            assert(out@ + body_md(rt, cols as int, header as int, k + 1) =~= out0 + body_md(
                rt,
                cols as int,
                header as int,
                k as int,
            ));
        }
        k = k + 1;
    }
    assert(body_md(rt, cols as int, header as int, k as int) =~= Seq::empty());
}

fn widest_row(rows: &Vec<Vec<Vec<u8>>>) -> (w: usize)
    ensures
        w == widest(rows_texts(rows@), rows@.len() as int),
{
    let ghost rt = rows_texts(rows@);
    let mut w: usize = 0;
    let mut n: usize = 0;
    while n < rows.len()
        invariant
            n <= rows.len(),
            rt == rows_texts(rows@),
            w == widest(rt, n as int),
        decreases rows.len() - n,
    {
        assert(rt[n as int] == row_texts(rows@[n as int]@));
        if rows[n].len() > w {
            w = rows[n].len();
        }
        n = n + 1;
    }
    w
}

fn row_has_header(row: &TableRow) -> (r: bool)
    ensures
        r == has_header(row_view(*row).cells, 0),
{
    let ghost cv = cells_view(row.cells@);
    let mut k: usize = 0;
    while k < row.cells.len()
        invariant
            k <= row.cells.len(),
            cv == cells_view(row.cells@),
            has_header(cv, k as int) == has_header(cv, 0),
        decreases row.cells.len() - k,
    {
        assert(cv[k as int] == cell_view(row.cells@[k as int]));
        match row.cells[k].kind {
            TableCellKind::Header => {
                return true;
            },
            TableCellKind::Data => {},
        }
        k = k + 1;
    }
    false
}

fn find_header_row(table: &Table) -> (r: Option<usize>)
    ensures
        crate::text::opt_int(r) == header_row_from(rows_view(table.rows@), 0),
        r matches Some(h) ==> h < table.rows@.len(),
{
    let ghost rv = rows_view(table.rows@);
    let mut k: usize = 0;
    while k < table.rows.len()
        invariant
            k <= table.rows.len(),
            rv == rows_view(table.rows@),
            header_row_from(rv, k as int) == header_row_from(rv, 0),
        decreases table.rows.len() - k,
    {
        assert(rv[k as int] == row_view(table.rows@[k as int]));
        if row_has_header(&table.rows[k]) {
            return Some(k);
        }
        k = k + 1;
    }
    None
}

/// Lays a table out from its rendered caption and cells.
#[verifier::rlimit(40)]
fn layout_table(
    table: &Table,
    caption: &Vec<u8>,
    rows: &Vec<Vec<Vec<u8>>>,
    opts: &RenderOptions,
) -> (out: Vec<u8>)
    requires
        rows@.len() == table.rows@.len(),
        rows@.len() > 0,
    ensures
        out@ == table_text(rows_view(table.rows@), caption@, rows_texts(rows@), opts@),
{
    let cols = widest_row(rows);
    let header = match find_header_row(table) {
        Some(h) => h,
        None => 0,
    };
    let ghost rt = rows_texts(rows@);
    let ghost rv = rows_view(table.rows@);
    let mut lines: Vec<u8> = Vec::new();
    push_str(&mut lines, "|");
    assert(rt[header as int] == row_texts(rows@[header as int]@));
    push_row(&mut lines, &rows[header], cols);
    lines.push(NL);
    push_str(&mut lines, "|");
    push_alignments(&mut lines, table, cols, header);
    lines.push(NL);
    push_body(&mut lines, rows, cols, header);
    let ghost full = lines@;
    assert(full =~= lit("|") + row_md(rt[header as int], cols as int, 0) + seq![NL] + lit("|")
        + aligns_md(rv, cols as int, header as int, 0) + seq![NL] + body_md(
        rt,
        cols as int,
        header as int,
        0,
    ));
    let end = skip_byte_run_back(lines.as_slice(), 0, lines.len(), NL);
    let mut out: Vec<u8> = Vec::new();
    if opts.center_tables_and_captions {
        push_str(
            &mut out,
            "<div style=\"display:flex; flex-direction:column; align-items:center;\">\n\n",
        );
    }
    if caption.len() > 0 {
        push_bytes(&mut out, caption.as_slice());
        push_str(&mut out, "\n\n");
    }
    out.extend_from_slice(&lines.as_slice()[0..end]);
    if opts.center_tables_and_captions {
        push_str(&mut out, "\n\n</div>");
    }
    let ghost titled = (if caption@.len() > 0 {
        caption@ + lit("\n\n")
    } else {
        Seq::empty()
    }) + without_trailing(full, NL);
    let ghost whole = if opts.center_tables_and_captions {
        lit("<div style=\"display:flex; flex-direction:column; align-items:center;\">\n\n")
            + titled + lit("\n\n</div>")
    } else {
        titled
    };
    assert(out@ =~= whole);
    let end2 = skip_byte_run_back(out.as_slice(), 0, out.len(), NL);
    out.truncate(end2);
    assert(out@ =~= without_trailing(whole, NL));
    out
}


/// Renders one block.
pub fn render_block(block: &BlockNode, ctx: &mut RenderContext, opts: &RenderOptions) -> (out: Vec<u8>)
    ensures
        out@ == block_md(block_view(*block), opts@, old(ctx)@).text,
        final(ctx)@ == block_md(block_view(*block), opts@, old(ctx)@).refs,
    decreases block, 0int,
{
    match &block.kind {
        BlockKind::Heading { level, content } => render_heading(*level, content, ctx, opts),
        BlockKind::Paragraph { content } => render_paragraph(content, ctx, opts),
        BlockKind::List { items } => render_list(items, ctx, opts, 0),
        BlockKind::CodeBlock { block: code } => render_code_block(code, opts),
        BlockKind::Table { table } => render_table(table, ctx, opts),
        BlockKind::BlockQuote { blocks } => {
            let inner = render_blocks(blocks, ctx, opts);
            prefix_lines(inner.as_slice(), "> ".as_bytes())
        },
        BlockKind::HorizontalRule => copy_bytes("---".as_bytes()),
        BlockKind::References { .. } => render_references(ctx, opts, true),
        BlockKind::HtmlBlock { node } => render_html_block(node, ctx, opts),
        BlockKind::MagicWord { name } => {
            let mut out: Vec<u8> = Vec::new();
            push_str(&mut out, "<!-- ");
            push_str(&mut out, name.as_str());
            push_str(&mut out, " -->");
            assert(out@ =~= lit("<!-- ") + encode_utf8(name@) + lit(" -->"));
            out
        },
        BlockKind::Raw { text } => {
            let t = text.as_str().as_bytes();
            let end = skip_byte_run_back(t, 0, t.len(), NL);
            let mut out: Vec<u8> = Vec::new();
            push_str(&mut out, "```text\n");
            out.extend_from_slice(&t[0..end]);
            push_str(&mut out, "\n```");
            assert(out@ =~= lit("```text\n") + without_trailing(t@, NL) + lit("\n```"));
            out
        },
    }
}

/// Renders blocks with a blank line between them.
fn render_blocks(blocks: &Vec<BlockNode>, ctx: &mut RenderContext, opts: &RenderOptions) -> (out: Vec<
    u8,
>)
    ensures
        out@ == blocks_md(blocks_view(blocks@), 0, opts@, old(ctx)@).text,
        final(ctx)@ == blocks_md(blocks_view(blocks@), 0, opts@, old(ctx)@).refs,
    decreases blocks, 1int,
{
    let ghost bv = blocks_view(blocks@);
    let ghost goal = blocks_md(bv, 0, opts@, ctx@);
    let mut out: Vec<u8> = Vec::new();
    let mut k: usize = 0;
    assert(out@ + goal.text =~= goal.text);
    while k < blocks.len()
        invariant
            k <= blocks.len(),
            bv == blocks_view(blocks@),
            out@ + blocks_md(bv, k as int, opts@, ctx@).text =~= goal.text,
            blocks_md(bv, k as int, opts@, ctx@).refs == goal.refs,
        decreases blocks.len() - k,
    {
        let ghost out0 = out@;
        let ghost here = blocks_md(bv, k as int, opts@, ctx@);
        assert(bv[k as int] == block_view(blocks@[k as int]));
        if k > 0 {
            push_str(&mut out, "\n\n");
        }
        let r = render_block(&blocks[k], ctx, opts);
        push_bytes(&mut out, r.as_slice());
        proof {
            let rest = blocks_md(bv, k + 1, opts@, ctx@);
            let head = (if k > 0 {
                lit("\n\n")
            } else {
                Seq::empty()
            }) + r@;
            assert(out@ =~= out0 + head);
            assert(here.text == head + rest.text);
            assert(out@ + rest.text =~= out0 + here.text);
        }
        k = k + 1;
    }
    assert(blocks_md(bv, k as int, opts@, ctx@).text =~= Seq::empty());
    out
}

/// Renders the blocks of a list item after its first.
fn render_item_rest(
    blocks: &Vec<BlockNode>,
    ctx: &mut RenderContext,
    opts: &RenderOptions,
    pad: &Vec<u8>,
) -> (out: Vec<u8>)
    ensures
        out@ == item_rest_md(blocks_view(blocks@), 1, opts@, old(ctx)@, pad@).text,
        final(ctx)@ == item_rest_md(blocks_view(blocks@), 1, opts@, old(ctx)@, pad@).refs,
    decreases blocks, 1int,
{
    let ghost bv = blocks_view(blocks@);
    let ghost goal = item_rest_md(bv, 1, opts@, ctx@, pad@);
    let mut out: Vec<u8> = Vec::new();
    let mut k: usize = 1;
    assert(out@ + goal.text =~= goal.text);
    while k < blocks.len()
        invariant
            1 <= k,
            bv == blocks_view(blocks@),
            out@ + item_rest_md(bv, k as int, opts@, ctx@, pad@).text =~= goal.text,
            item_rest_md(bv, k as int, opts@, ctx@, pad@).refs == goal.refs,
        decreases blocks.len() - k,
    {
        let ghost out0 = out@;
        let ghost here = item_rest_md(bv, k as int, opts@, ctx@, pad@);
        assert(bv[k as int] == block_view(blocks@[k as int]));
        out.push(NL);
        let r = render_block(&blocks[k], ctx, opts);
        let lines = prefix_lines(r.as_slice(), pad.as_slice());
        push_bytes(&mut out, lines.as_slice());
        proof {
            let rest = item_rest_md(bv, k + 1, opts@, ctx@, pad@);
            let head = seq![NL] + prefixed(r@, pad@);
            assert(out@ =~= out0 + head);
            assert(here.text == head + rest.text);
            assert(out@ + rest.text =~= out0 + here.text);
        }
        k = k + 1;
    }
    assert(item_rest_md(bv, k as int, opts@, ctx@, pad@).text =~= Seq::empty());
    out
}

/// Renders one list item.
fn render_item(item: &ListItem, ctx: &mut RenderContext, opts: &RenderOptions, indent: usize) -> (out:
    Vec<u8>)
    ensures
        out@ == item_md(item_view(*item), opts@, old(ctx)@, indent as nat).text,
        final(ctx)@ == item_md(item_view(*item), opts@, old(ctx)@, indent as nat).refs,
    decreases item, 2int,
{
    let ghost bv = blocks_view(item.blocks@);
    let mut out: Vec<u8> = Vec::new();
    push_repeated(&mut out, SPACE, indent);
    match item.marker {
        ListMarker::Ordered => push_str(&mut out, "1. "),
        _ => push_str(&mut out, "- "),
    }
    let ghost start = out@;
    assert(start =~= repeated(SPACE, indent as nat) + marker_md(item.marker));
    if item.blocks.len() == 0 {
        return out;
    }
    let mut pad: Vec<u8> = Vec::new();
    push_repeated(&mut pad, SPACE, indent);
    push_str(&mut pad, "  ");
    assert(pad@ =~= repeated(SPACE, indent as nat) + lit("  "));
    let first = &item.blocks[0];
    assert(bv[0] == block_view(*first));
    let head = match &first.kind {
        BlockKind::Paragraph { content } => {
            let r = render_inlines(content, 0, ctx, opts);
            trimmed_copy(r.as_slice())
        },
        _ => {
            let r = render_block(first, ctx, opts);
            prefix_lines(r.as_slice(), pad.as_slice())
        },
    };
    push_bytes(&mut out, head.as_slice());
    let rest = render_item_rest(&item.blocks, ctx, opts, &pad);
    push_bytes(&mut out, rest.as_slice());
    assert(out@ =~= repeated(SPACE, indent as nat) + marker_md(item.marker) + head@ + rest@);
    out
}

/// Renders a list.
fn render_list(items: &Vec<ListItem>, ctx: &mut RenderContext, opts: &RenderOptions, indent: usize)
    -> (out: Vec<u8>)
    ensures
        out@ == list_md(items_view(items@), 0, opts@, old(ctx)@, indent as nat).text,
        final(ctx)@ == list_md(items_view(items@), 0, opts@, old(ctx)@, indent as nat).refs,
    decreases items, 3int,
{
    let ghost iv = items_view(items@);
    let ghost goal = list_md(iv, 0, opts@, ctx@, indent as nat);
    let mut out: Vec<u8> = Vec::new();
    let mut k: usize = 0;
    assert(out@ + goal.text =~= goal.text);
    while k < items.len()
        invariant
            k <= items.len(),
            iv == items_view(items@),
            out@ + list_md(iv, k as int, opts@, ctx@, indent as nat).text =~= goal.text,
            list_md(iv, k as int, opts@, ctx@, indent as nat).refs == goal.refs,
        decreases items.len() - k,
    {
        let ghost out0 = out@;
        let ghost here = list_md(iv, k as int, opts@, ctx@, indent as nat);
        assert(iv[k as int] == item_view(items@[k as int]));
        if k > 0 {
            out.push(NL);
        }
        let r = render_item(&items[k], ctx, opts, indent);
        push_bytes(&mut out, r.as_slice());
        proof {
            let rest = list_md(iv, k + 1, opts@, ctx@, indent as nat);
            let head = (if k > 0 {
                seq![NL]
            } else {
                Seq::empty()
            }) + r@;
            assert(out@ =~= out0 + head);
            assert(here.text == head + rest.text);
            assert(out@ + rest.text =~= out0 + here.text);
        }
        k = k + 1;
    }
    assert(list_md(iv, k as int, opts@, ctx@, indent as nat).text =~= Seq::empty());
    out
}

/// Renders an HTML block.
fn render_html_block(node: &HtmlBlock, ctx: &mut RenderContext, opts: &RenderOptions) -> (out: Vec<u8>)
    ensures
        out@ == block_md(
            BlockNodeView {
                span: Span { start: 0, end: 0 },
                kind: block_kind_view(BlockKind::HtmlBlock { node: *node }),
            },
            opts@,
            old(ctx)@,
        ).text,
        final(ctx)@ == block_md(
            BlockNodeView {
                span: Span { start: 0, end: 0 },
                kind: block_kind_view(BlockKind::HtmlBlock { node: *node }),
            },
            opts@,
            old(ctx)@,
        ).refs,
    decreases node, 2int,
{
    let name = node.name.as_str().as_bytes();
    let mut out: Vec<u8> = Vec::new();
    push_str(&mut out, "<");
    push_bytes(&mut out, name);
    crate::render::inline::push_attr_list(&mut out, &node.attrs);
    if node.self_closing {
        push_str(&mut out, " />");
        assert(out@ =~= lit("<") + name@ + attrs_md(attrs_view(node.attrs@), 0) + lit(" />"));
        return out;
    }
    push_str(&mut out, ">");
    let inner = render_blocks(&node.children, ctx, opts);
    if node.children.len() > 0 {
        out.push(NL);
        push_bytes(&mut out, inner.as_slice());
        out.push(NL);
    }
    push_str(&mut out, "</");
    push_bytes(&mut out, name);
    push_str(&mut out, ">");
    assert(out@ =~= lit("<") + name@ + attrs_md(attrs_view(node.attrs@), 0) + lit(">") + (
    if blocks_view(node.children@).len() > 0 {
        seq![NL] + inner@ + seq![NL]
    } else {
        Seq::empty()
    }) + lit("</") + name@ + lit(">"));
    out
}

/// What one block of a cell adds to the cell's line: the block on one
/// line, after a space where something stands before it; nothing where the
/// block is blank.
pub open spec fn cell_piece(text: Seq<u8>, any: bool) -> Seq<u8> {
    let s = trimmed(replaced(text, NL, seq![SPACE]));
    if s.len() > 0 && any {
        seq![SPACE] + s
    } else {
        s
    }
}

proof fn lemma_cell_step(
    blocks: Seq<BlockNodeView>,
    k: int,
    o: RenderOptionsView,
    refs: Seq<Seq<u8>>,
    any: bool,
)
    requires
        0 <= k < blocks.len(),
    ensures
        cell_md(blocks, k, o, refs, any).text == cell_piece(block_md(blocks[k], o, refs).text, any)
            + cell_md(
            blocks,
            k + 1,
            o,
            block_md(blocks[k], o, refs).refs,
            any || trimmed(replaced(block_md(blocks[k], o, refs).text, NL, seq![SPACE])).len() > 0,
        ).text,
        cell_md(blocks, k, o, refs, any).refs == cell_md(
            blocks,
            k + 1,
            o,
            block_md(blocks[k], o, refs).refs,
            any || trimmed(replaced(block_md(blocks[k], o, refs).text, NL, seq![SPACE])).len() > 0,
        ).refs,
{
}

/// Appends a rendered block to a cell's line; tells whether the line holds
/// anything now.
fn push_cell_piece(out: &mut Vec<u8>, text: &Vec<u8>, any: bool) -> (r: bool)
    ensures
        final(out)@ == old(out)@ + cell_piece(text@, any),
        r == (any || trimmed(replaced(text@, NL, seq![SPACE])).len() > 0),
{
    proof {
        lemma_space_lit();
    }
    let flat = replace_byte(text.as_slice(), NL, " ".as_bytes());
    let s = trimmed_copy(flat.as_slice());
    if s.len() > 0 {
        if any {
            out.push(SPACE);
        }
        push_bytes(out, s.as_slice());
        assert(out@ =~= old(out)@ + cell_piece(text@, any));
        true
    } else {
        assert(out@ =~= old(out)@ + cell_piece(text@, any));
        any
    }
}

/// Renders a cell.
#[verifier::rlimit(40)]
fn render_table_cell(cell: &TableCell, ctx: &mut RenderContext, opts: &RenderOptions) -> (out: Vec<u8>)
    ensures
        out@ == cell_md(cell_view(*cell).blocks, 0, opts@, old(ctx)@, false).text,
        final(ctx)@ == cell_md(cell_view(*cell).blocks, 0, opts@, old(ctx)@, false).refs,
    decreases cell, 2int,
{
    let ghost bv = blocks_view(cell.blocks@);
    let ghost goal = cell_md(bv, 0, opts@, ctx@, false);
    let mut out: Vec<u8> = Vec::new();
    let mut any = false;
    let mut k: usize = 0;
    assert(out@ + goal.text =~= goal.text);
    while k < cell.blocks.len()
        invariant
            k <= cell.blocks.len(),
            bv == blocks_view(cell.blocks@),
            out@ + cell_md(bv, k as int, opts@, ctx@, any).text =~= goal.text,
            cell_md(bv, k as int, opts@, ctx@, any).refs == goal.refs,
        decreases cell.blocks.len() - k,
    {
        let ghost out0 = out@;
        let ghost refs0 = ctx@;
        let ghost any0 = any;
        assert(bv[k as int] == block_view(cell.blocks@[k as int]));
        proof {
            lemma_cell_step(bv, k as int, opts@, refs0, any0);
        }
        let r = render_block(&cell.blocks[k], ctx, opts);
        any = push_cell_piece(&mut out, &r, any);
        proof {
            let rest = cell_md(bv, k + 1, opts@, ctx@, any);
            crate::parse::inline::lemma_concat_assoc(out0, cell_piece(r@, any0), rest.text);
        }
        k = k + 1;
    }
    assert(cell_md(bv, k as int, opts@, ctx@, any).text =~= Seq::empty());
    out
}

/// Renders the cells of a row.
fn render_row_cells(row: &TableRow, ctx: &mut RenderContext, opts: &RenderOptions) -> (out: Vec<
    Vec<u8>,
>)
    ensures
        row_texts(out@) == row_cells_md(row_view(*row).cells, 0, opts@, old(ctx)@).0,
        final(ctx)@ == row_cells_md(row_view(*row).cells, 0, opts@, old(ctx)@).1,
    decreases row, 3int,
{
    let ghost cv = cells_view(row.cells@);
    let ghost goal = row_cells_md(cv, 0, opts@, ctx@);
    let mut out: Vec<Vec<u8>> = Vec::new();
    let mut k: usize = 0;
    assert(row_texts(out@) + goal.0 =~= goal.0);
    while k < row.cells.len()
        invariant
            k <= row.cells.len(),
            cv == cells_view(row.cells@),
            row_texts(out@) + row_cells_md(cv, k as int, opts@, ctx@).0 =~= goal.0,
            row_cells_md(cv, k as int, opts@, ctx@).1 == goal.1,
        decreases row.cells.len() - k,
    {
        let ghost out0 = row_texts(out@);
        let ghost here = row_cells_md(cv, k as int, opts@, ctx@);
        assert(cv[k as int] == cell_view(row.cells@[k as int]));
        let c = render_table_cell(&row.cells[k], ctx, opts);
        out.push(c);
        proof {
            let rest = row_cells_md(cv, k + 1, opts@, ctx@);
            assert(row_texts(out@) =~= out0 + seq![c@]);
            assert(here.0 == seq![c@] + rest.0);
            assert(row_texts(out@) + rest.0 =~= out0 + here.0);
        }
        k = k + 1;
    }
    assert(row_cells_md(cv, k as int, opts@, ctx@).0 =~= Seq::empty());
    out
}

/// Renders a table.
fn render_table(table: &Table, ctx: &mut RenderContext, opts: &RenderOptions) -> (out: Vec<u8>)
    ensures
        out@ == table_md(table_view(*table), opts@, old(ctx)@).text,
        final(ctx)@ == table_md(table_view(*table), opts@, old(ctx)@).refs,
    decreases table, 4int,
{
    let cap = match &table.caption {
        Some(c) => render_inlines(&c.content, 0, ctx, opts),
        None => Vec::new(),
    };
    let caption = trimmed_copy(cap.as_slice());
    let ghost rv = rows_view(table.rows@);
    let ghost goal = rows_cells_md(rv, 0, opts@, ctx@);
    let mut rows: Vec<Vec<Vec<u8>>> = Vec::new();
    let mut k: usize = 0;
    assert(rows_texts(rows@) + goal.0 =~= goal.0);
    while k < table.rows.len()
        invariant
            k <= table.rows.len(),
            rows@.len() == k,
            rv == rows_view(table.rows@),
            rows_texts(rows@) + rows_cells_md(rv, k as int, opts@, ctx@).0 =~= goal.0,
            rows_cells_md(rv, k as int, opts@, ctx@).1 == goal.1,
        decreases table.rows.len() - k,
    {
        let ghost out0 = rows_texts(rows@);
        let ghost here = rows_cells_md(rv, k as int, opts@, ctx@);
        assert(rv[k as int] == row_view(table.rows@[k as int]));
        let r = render_row_cells(&table.rows[k], ctx, opts);
        rows.push(r);
        proof {
            let rest = rows_cells_md(rv, k + 1, opts@, ctx@);
            assert(rows_texts(rows@) =~= out0 + seq![row_texts(r@)]);
            assert(here.0 == seq![row_texts(r@)] + rest.0);
            assert(rows_texts(rows@) + rest.0 =~= out0 + here.0);
        }
        k = k + 1;
    }
    assert(rows_cells_md(rv, k as int, opts@, ctx@).0 =~= Seq::empty());
    assert(rows_texts(rows@) =~= goal.0);
    if rows.len() == 0 {
        let mut out = caption;
        let end = skip_byte_run_back(out.as_slice(), 0, out.len(), NL);
        out.truncate(end);
        assert(out@ =~= without_trailing(trimmed(cap@), NL));
        return out;
    }
    layout_table(table, &caption, &rows, opts)
}

} // verus!
