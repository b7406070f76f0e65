//! The short converter: a shorter chain of rewrites, with `<pre>` as fenced
//! C code and plain link targets.

use crate::convert::blocks::{process_quote_spacing, quotes_spaced};
use crate::convert::inline::{
    external_links, links_spliced_with, perft_calls, punctuation_fixed, span_ids,
    convert_external_links, convert_perft_calls, convert_span_ids,
    fix_space_before_punctuation, splice_links, BOLD, BREAK, HEADING_2, QUOTE_LINE, WIKI_LINK,
};
use crate::convert::pattern::{normal, re_sub, rematches, resub};
use crate::emit::{push_bytes, push_str, replace_byte, replace_sub, replaced, replaced_sub};
use crate::parse::inline::lit;
use crate::render::inline::{lemma_space_lit, trimmed, trimmed_copy};
use crate::text::{find_byte, first_byte, decoded, string_from_bytes, PIPE, SPACE, UNDERSCORE};
use vstd::prelude::*;
use vstd::string::*;

verus! {

pub const SHORT_HEADING_1: &'static str = r"(?m)^=(.+?)=\s*$";

pub const SHORT_HEADER_ANCHOR: &'static str = r#"(?m)^(#{2,3})\s*(<a name="[^"]+"></a>)\s*(.*)$"#;

pub const SHORT_BREADCRUMBS: &'static str = r"\*\*\[Home]\(Main_Page\).* \* (.+)\*\*";

/// What stands for a wiki link whose inside is `inner`: `[label](target)`,
/// the target with `_` for each space.
pub open spec fn plain_link_md(inner: Seq<u8>) -> Seq<u8> {
    let n = inner.len() as int;
    let bar = first_byte(inner, 0, n, PIPE);
    lit("[") + trimmed(
        match bar {
            Some(p) => inner.subrange(p + 1, n),
            None => inner,
        },
    ) + lit("](") + replaced(
        trimmed(
            match bar {
                Some(p) => inner.subrange(0, p),
                None => inner,
            },
        ),
        SPACE,
        seq![UNDERSCORE],
    ) + lit(")")
}

pub fn plain_link_replacement(inner: &[u8]) -> (out: Vec<u8>)
    ensures
        out@ == plain_link_md(inner@),
{
    proof {
        lemma_space_lit();
    }
    let n: usize = inner.len();
    let bar = find_byte(inner, 0, n, PIPE);
    let target = match bar {
        Some(p) => trimmed_copy(&inner[0..p]),
        None => trimmed_copy(inner),
    };
    let label = match bar {
        Some(p) => trimmed_copy(&inner[p + 1..n]),
        None => trimmed_copy(inner),
    };
    let page = replace_byte(target.as_slice(), SPACE, "_".as_bytes());
    let mut out: Vec<u8> = Vec::new();
    push_str(&mut out, "[");
    push_bytes(&mut out, label.as_slice());
    push_str(&mut out, "](");
    push_bytes(&mut out, page.as_slice());
    push_str(&mut out, ")");
    assert(out@ =~= plain_link_md(inner@));
    out
}

/// The first half of the chain: fences for `<pre>`, anchors, headings of
/// two levels, links.
pub open spec fn first_half(t: Seq<u8>) -> Seq<u8> {
    let fenced = replaced_sub(
        replaced_sub(t, lit("<pre>"), lit("\n```c\n")),
        lit("</pre>"),
        lit("\n```\n"),
    );
    let headed = resub(
        SHORT_HEADER_ANCHOR@,
        resub(
            SHORT_HEADING_1@,
            resub(HEADING_2@, span_ids(fenced), "\n### $1\n"@),
            "\n## $1\n"@,
        ),
        "$2\n$1 $3"@,
    );
    external_links(links_spliced_with(normal(headed), rematches(WIKI_LINK@, headed), 0, 0, false))
}

/// The second half of the chain: bold, `perft` calls, line breaks,
/// punctuation, quotes, newlines, quotation marks, breadcrumbs.
pub open spec fn second_half(t: Seq<u8>) -> Seq<u8> {
    let quoted = quotes_spaced(
        resub(
            QUOTE_LINE@,
            punctuation_fixed(resub(BREAK@, perft_calls(resub(BOLD@, t, "**$1**"@)), "\n"@)),
            "> $content"@,
        ),
        0,
        Seq::empty(),
        false,
    );
    let cleaned = replaced_sub(
        replaced_sub(
            replaced_sub(
                replaced_sub(
                    replaced_sub(quoted, lit("\n\n\n"), lit("\n\n")),
                    lit("\n\n\n"),
                    lit("\n\n"),
                ),
                lit("```c\n\n"),
                lit("```c\n"),
            ),
            lit("\n\n```\n"),
            lit("\n```\n"),
        ),
        lit("''"),
        lit("\""),
    );
    trimmed(resub(SHORT_BREADCRUMBS@, cleaned, "# $1"@))
}

/// The Markdown that the short converter makes of a wikitext.
pub open spec fn short_markdown_of(input: Seq<u8>) -> Seq<u8> {
    second_half(first_half(input))
}

fn convert_first_half(input: &[u8]) -> (out: Vec<u8>)
    ensures
        out@ == first_half(input@),
{
    let a = replace_sub(input, "<pre>".as_bytes(), "\n```c\n".as_bytes());
    let b = replace_sub(a.as_slice(), "</pre>".as_bytes(), "\n```\n".as_bytes());
    let c = convert_span_ids(b);
    let d = re_sub(HEADING_2, c, "\n### $1\n");
    let e = re_sub(SHORT_HEADING_1, d, "\n## $1\n");
    let f = re_sub(SHORT_HEADER_ANCHOR, e, "$2\n$1 $3");
    let g = splice_links(f, false);
    convert_external_links(g)
}

fn convert_second_half(text: Vec<u8>) -> (out: Vec<u8>)
    ensures
        out@ == second_half(text@),
{
    let a = re_sub(BOLD, text, "**$1**");
    let b = convert_perft_calls(a);
    let c = re_sub(BREAK, b, "\n");
    let d = fix_space_before_punctuation(c);
    let e = re_sub(QUOTE_LINE, d, "> $content");
    let f = process_quote_spacing(e.as_slice());
    let three = "\n\n\n".as_bytes();
    let two = "\n\n".as_bytes();
    let g = replace_sub(f.as_slice(), three, two);
    let h = replace_sub(g.as_slice(), three, two);
    let i = replace_sub(h.as_slice(), "```c\n\n".as_bytes(), "```c\n".as_bytes());
    let j = replace_sub(i.as_slice(), "\n\n```\n".as_bytes(), "\n```\n".as_bytes());
    let k = replace_sub(j.as_slice(), "''".as_bytes(), "\"".as_bytes());
    let l = re_sub(SHORT_BREADCRUMBS, k, "# $1");
    trimmed_copy(l.as_slice())
}

/// Converts wikitext to Markdown by the short chain of rewrites.
pub fn convert_wiki_to_markdown(input: &str) -> (md: String)
    ensures
        md@ == decoded(short_markdown_of(input.spec_bytes())),
{
    let half = convert_first_half(input.as_bytes());
    let out = convert_second_half(half);
    string_from_bytes(out.as_slice())
}

} // verus!
