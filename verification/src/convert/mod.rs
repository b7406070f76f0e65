//! Wikitext to Markdown by rewriting the text.
//!
//! The text is rewritten step by step, most steps by a regular expression.
//! Code blocks and tables are lifted out first and put back last, so that no
//! step rewrites them.

pub mod blocks;
pub mod inline;
pub mod short;
pub mod lift;
pub mod pattern;
pub mod table;

use crate::convert::blocks::{
    cleanup_newlines, code_lifted, lift_code_blocks, newlines_cleaned, process_quote_spacing,
    quotes_spaced, restore_placeholders, restored,
};
use crate::convert::inline::{
    blockquotes, bold_italic, breadcrumbs_to_heading, breaks_to_newlines, convert_blockquotes,
    convert_bold_italic, convert_br_to_newlines, convert_breadcrumbs_to_heading,
    convert_external_links, convert_headings, convert_perft_calls, convert_span_ids,
    convert_wiki_links, external_links, extract_anchor_from_header, fix_space_before_punctuation,
    header_anchors, headings, perft_calls, punctuation_fixed, span_ids, wiki_links,
};
use crate::convert::lift::{lift_and_convert_tables, tables_lifted};
use crate::parse::inline::lit;
use crate::render::inline::{trimmed, trimmed_copy};
use crate::text::{decoded, string_from_bytes};
use vstd::prelude::*;
use vstd::string::*;

verus! {

/// The inline rewrites, in their order: headings, anchors, links, emphasis,
/// `perft` calls, line breaks, punctuation, quotes.
pub open spec fn rewritten(t: Seq<u8>) -> Seq<u8> {
    quotes_spaced(
        blockquotes(
            punctuation_fixed(
                breaks_to_newlines(
                    perft_calls(
                        bold_italic(external_links(wiki_links(header_anchors(headings(t))))),
                    ),
                ),
            ),
        ),
        0,
        Seq::empty(),
        false,
    )
}

/// The Markdown that a wikitext converts to, as bytes.
pub open spec fn markdown_of(input: Seq<u8>) -> Seq<u8> {
    let code = code_lifted(input);
    let tables = tables_lifted(span_ids(code.text));
    trimmed(
        restored(
            restored(
                breadcrumbs_to_heading(newlines_cleaned(rewritten(tables.0))),
                lit("TABLE"),
                tables.1,
                0,
            ),
            lit("CODE BLOCK"),
            code.blocks,
            0,
        ),
    )
}

/// Converts wikitext to Markdown, as bytes.
pub fn wiki_to_markdown_bytes(input: &[u8]) -> (out: Vec<u8>)
    ensures
        out@ == markdown_of(input@),
{
    let (text, code_blocks) = lift_code_blocks(input);
    let text = convert_span_ids(text);
    let (text, tables) = lift_and_convert_tables(text.as_slice());
    let text = convert_headings(text);
    let text = extract_anchor_from_header(text);
    let text = convert_wiki_links(text);
    let text = convert_external_links(text);
    let text = convert_bold_italic(text);
    let text = convert_perft_calls(text);
    let text = convert_br_to_newlines(text);
    let text = fix_space_before_punctuation(text);
    let text = convert_blockquotes(text);
    let text = process_quote_spacing(text.as_slice());
    let text = cleanup_newlines(text.as_slice());
    let text = convert_breadcrumbs_to_heading(text);
    let text = restore_placeholders(text, "TABLE", &tables);
    let text = restore_placeholders(text, "CODE BLOCK", &code_blocks);
    trimmed_copy(text.as_slice())
}

/// Converts wikitext to Markdown.
pub fn wiki_to_markdown(input: &str) -> (md: String)
    ensures
        md@ == decoded(markdown_of(input.spec_bytes())),
{
    let out = wiki_to_markdown_bytes(input.as_bytes());
    string_from_bytes(out.as_slice())
}

} // verus!
