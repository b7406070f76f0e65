//! The rewrites of inline markup: anchors, headings, links, emphasis.

use crate::convert::pattern::{
    groups_view, matches_view, normal, re_matches, re_sub, rematches, resub,
};
use crate::emit::{
    copy_bytes, push_bytes, push_str, replace_byte, replace_sub, replaced, replaced_sub,
};
use crate::parse::inline::{lemma_concat_assoc, lit};
use crate::render::inline::{lemma_space_lit, trimmed, trimmed_copy};
use crate::text::{
    find_byte, first_byte, decoded, string_from_bytes, HASH, PIPE, SPACE, UNDERSCORE,
};
use vstd::prelude::*;
use vstd::string::*;
use vstd::utf8::encode_utf8;

verus! {

pub const SPAN_ID: &'static str = r#"<span\s+id="([^"]+)"></span>"#;

pub const SPAN_ID_TO: &'static str = r#"<a name="$1"></a>"#;

pub const HEADING_4: &'static str = r"(?m)^\s*====(.+?)====\s*$";

pub const HEADING_3: &'static str = r"(?m)^\s*===(.+?)===\s*$";

pub const HEADING_2: &'static str = r"(?m)^\s*==(.+?)==\s*$";

pub const HEADING_1: &'static str = r"(?m)^\s*=(.+?)=\s*$";

pub const HEADER_ANCHOR: &'static str = r#"(?m)^(#{2,6})\s*(<a name="[^"]+"></a>)\s*(.*)$"#;

pub const WIKI_LINK: &'static str = r"\[\[(?P<inner>.*?)]]";

pub const EXTERNAL_LINK: &'static str = r"\[(?P<url>https?://\S+)\s+(?P<label>[^]]+)]";

pub const BOLD_ITALIC: &'static str = r"'''''(.*?)'''''";

pub const BOLD: &'static str = r"'''(.*?)'''";

pub const ITALIC: &'static str = r"''(.*?)''";

pub const PERFT: &'static str = r"(?i)(perft\(\d+\))";

pub const BREAK: &'static str = r"(?i)<\s*br\s*/?\s*>";

pub const SPACE_BEFORE_PUNCTUATION: &'static str = r">\s+([.:,;])";

pub const QUOTE_LINE: &'static str = r"(?m)^ (?P<content>[^ ].*)$";

pub const BREADCRUMBS: &'static str = r"\*\*\[Home]\([^)]*Main_Page[^)]*\).* \* (.+)\*\*";

/// `<span id="x"></span>` becomes `<a name="x"></a>`.
pub open spec fn span_ids(t: Seq<u8>) -> Seq<u8> {
    resub(SPAN_ID@, t, SPAN_ID_TO@)
}

pub fn convert_span_ids(text: Vec<u8>) -> (out: Vec<u8>)
    ensures
        out@ == span_ids(text@),
{
    re_sub(SPAN_ID, text, SPAN_ID_TO)
}

/// Headings, the deepest first: `====T====` to `##### T` down to `=T=` to
/// `## T`, each on lines of its own.
pub open spec fn headings(t: Seq<u8>) -> Seq<u8> {
    resub(
        HEADING_1@,
        resub(
            HEADING_2@,
            resub(HEADING_3@, resub(HEADING_4@, t, "\n##### $1\n"@), "\n#### $1\n"@),
            "\n### $1\n"@,
        ),
        "\n## $1\n"@,
    )
}

pub fn convert_headings(text: Vec<u8>) -> (out: Vec<u8>)
    ensures
        out@ == headings(text@),
{
    let t4 = re_sub(HEADING_4, text, "\n##### $1\n");
    let t3 = re_sub(HEADING_3, t4, "\n#### $1\n");
    let t2 = re_sub(HEADING_2, t3, "\n### $1\n");
    re_sub(HEADING_1, t2, "\n## $1\n")
}

/// An anchor at the start of a heading goes on the line before it.
pub open spec fn header_anchors(t: Seq<u8>) -> Seq<u8> {
    resub(HEADER_ANCHOR@, t, "$2\n$1 $3"@)
}

pub fn extract_anchor_from_header(text: Vec<u8>) -> (out: Vec<u8>)
    ensures
        out@ == header_anchors(text@),
{
    re_sub(HEADER_ANCHOR, text, "$2\n$1 $3")
}

/// `[url label]` becomes `[label](url)`.
pub open spec fn external_links(t: Seq<u8>) -> Seq<u8> {
    resub(EXTERNAL_LINK@, t, "[$label]($url)"@)
}

pub fn convert_external_links(text: Vec<u8>) -> (out: Vec<u8>)
    ensures
        out@ == external_links(text@),
{
    re_sub(EXTERNAL_LINK, text, "[$label]($url)")
}

/// Emphasis, the longest delimiter first.
pub open spec fn bold_italic(t: Seq<u8>) -> Seq<u8> {
    resub(ITALIC@, resub(BOLD@, resub(BOLD_ITALIC@, t, "***$1***"@), "**$1**"@), "*$1*"@)
}

pub fn convert_bold_italic(text: Vec<u8>) -> (out: Vec<u8>)
    ensures
        out@ == bold_italic(text@),
{
    let a = re_sub(BOLD_ITALIC, text, "***$1***");
    let b = re_sub(BOLD, a, "**$1**");
    re_sub(ITALIC, b, "*$1*")
}

/// `perft(n)` goes into backticks, once.
pub open spec fn perft_calls(t: Seq<u8>) -> Seq<u8> {
    replaced_sub(
        replaced_sub(resub(PERFT@, t, "`$1`"@), lit("``perft"), lit("`perft")),
        lit(")``"),
        lit(")`"),
    )
}

pub fn convert_perft_calls(text: Vec<u8>) -> (out: Vec<u8>)
    ensures
        out@ == perft_calls(text@),
{
    let a = re_sub(PERFT, text, "`$1`");
    let b = replace_sub(a.as_slice(), "``perft".as_bytes(), "`perft".as_bytes());
    replace_sub(b.as_slice(), ")``".as_bytes(), ")`".as_bytes())
}

/// `<br>` in any form becomes a newline.
pub open spec fn breaks_to_newlines(t: Seq<u8>) -> Seq<u8> {
    resub(BREAK@, t, "\n"@)
}

pub fn convert_br_to_newlines(text: Vec<u8>) -> (out: Vec<u8>)
    ensures
        out@ == breaks_to_newlines(text@),
{
    re_sub(BREAK, text, "\n")
}

/// White space between a `>` and a punctuation mark goes.
pub open spec fn punctuation_fixed(t: Seq<u8>) -> Seq<u8> {
    resub(SPACE_BEFORE_PUNCTUATION@, t, ">$1"@)
}

pub fn fix_space_before_punctuation(text: Vec<u8>) -> (out: Vec<u8>)
    ensures
        out@ == punctuation_fixed(text@),
{
    re_sub(SPACE_BEFORE_PUNCTUATION, text, ">$1")
}

/// A line that begins with exactly one space becomes a quote.
pub open spec fn blockquotes(t: Seq<u8>) -> Seq<u8> {
    resub(QUOTE_LINE@, t, "> $content"@)
}

pub fn convert_blockquotes(text: Vec<u8>) -> (out: Vec<u8>)
    ensures
        out@ == blockquotes(text@),
{
    re_sub(QUOTE_LINE, text, "> $content")
}

/// The breadcrumbs line becomes the page's heading.
pub open spec fn breadcrumbs_to_heading(t: Seq<u8>) -> Seq<u8> {
    resub(BREADCRUMBS@, t, "# $1"@)
}

pub fn convert_breadcrumbs_to_heading(text: Vec<u8>) -> (out: Vec<u8>)
    ensures
        out@ == breadcrumbs_to_heading(text@),
{
    re_sub(BREADCRUMBS, text, "# $1")
}

/// An anchor as it is written in a link: `_` for each space.
pub open spec fn anchor_md(anchor: Seq<u8>) -> Seq<u8> {
    replaced(anchor, SPACE, seq![UNDERSCORE])
}

pub fn normalize_anchor(anchor: &[u8]) -> (out: Vec<u8>)
    ensures
        out@ == anchor_md(anchor@),
{
    proof {
        lemma_space_lit();
    }
    replace_byte(anchor, SPACE, "_".as_bytes())
}

/// The lower-case form of a character, which may be more than one
/// character.
pub uninterp spec fn lower_of(c: char) -> Seq<char>;

/// `char::to_lowercase`, gathered into a string. The result is a function of
/// the character alone. Nothing is proved of it here.
#[verifier::external_body]
pub(crate) fn char_lower(c: char) -> (r: String)
    ensures
        r@ == lower_of(c),
{
    c.to_lowercase().collect()
}

/// The directory that a page is filed under: its first character in lower
/// case, or `x` where it has none.
pub open spec fn dir_of(page: Seq<u8>) -> Seq<u8> {
    if decoded(page).len() > 0 {
        encode_utf8(lower_of(decoded(page)[0]))
    } else {
        lit("x")
    }
}

pub fn lower_first_letter_dir(page: &[u8]) -> (out: Vec<u8>)
    ensures
        out@ == dir_of(page@),
{
    let s = string_from_bytes(page);
    if s.as_str().unicode_len() > 0 {
        let c = s.as_str().get_char(0);
        let lower = char_lower(c);
        copy_bytes(lower.as_str().as_bytes())
    } else {
        copy_bytes("x".as_bytes())
    }
}

/// What stands for a wiki link whose inside is `inner`: `[label](href)`.
/// The label is what follows the first `|`, or the target. A target that
/// starts with `#` is an anchor of the page; any other is a page one
/// directory up, under the directory of its first letter, with its anchor.
pub open spec fn link_md(inner: Seq<u8>) -> Seq<u8> {
    let n = inner.len() as int;
    let bar = first_byte(inner, 0, n, PIPE);
    let target = trimmed(
        match bar {
            Some(p) => inner.subrange(0, p),
            None => inner,
        },
    );
    let label = trimmed(
        match bar {
            Some(p) => inner.subrange(p + 1, n),
            None => inner,
        },
    );
    if target.len() > 0 && target[0] == HASH {
        lit("[") + label + lit("](") + anchor_md(target) + lit(")")
    } else {
        let hash = first_byte(target, 0, target.len() as int, HASH);
        let page = replaced(
            match hash {
                Some(h) => trimmed(target.subrange(0, h)),
                None => target,
            },
            SPACE,
            seq![UNDERSCORE],
        );
        lit("[") + label + lit("](") + lit("../") + dir_of(page) + lit("/") + page + lit(".md") + (
        match hash {
            Some(h) => lit("#") + anchor_md(trimmed(target.subrange(h + 1, target.len() as int))),
            None => Seq::empty(),
        }) + lit(")")
    }
}

/// Writes what stands for a wiki link.
pub fn wiki_link_replacement(inner: &[u8]) -> (out: Vec<u8>)
    ensures
        out@ == link_md(inner@),
{
    proof {
        lemma_space_lit();
    }
    let n: usize = inner.len();
    let bar = find_byte(inner, 0, n, PIPE);
    let target = match bar {
        Some(p) => trimmed_copy(&inner[0..p]),
        None => {
            assert(inner@.subrange(0, n as int) =~= inner@);
            trimmed_copy(inner)
        },
    };
    let label = match bar {
        Some(p) => trimmed_copy(&inner[p + 1..n]),
        None => trimmed_copy(inner),
    };
    let mut out: Vec<u8> = Vec::new();
    push_str(&mut out, "[");
    push_bytes(&mut out, label.as_slice());
    push_str(&mut out, "](");
    if target.len() > 0 && target[0] == HASH {
        let anchor = normalize_anchor(target.as_slice());
        push_bytes(&mut out, anchor.as_slice());
        push_str(&mut out, ")");
        assert(out@ =~= lit("[") + label@ + lit("](") + anchor_md(target@) + lit(")"));
        return out;
    }
    let tn: usize = target.len();
    let hash = find_byte(target.as_slice(), 0, tn, HASH);
    let page_raw = match hash {
        Some(h) => trimmed_copy(&target.as_slice()[0..h]),
        None => copy_bytes(target.as_slice()),
    };
    let page = replace_byte(page_raw.as_slice(), SPACE, "_".as_bytes());
    let dir = lower_first_letter_dir(page.as_slice());
    push_str(&mut out, "../");
    push_bytes(&mut out, dir.as_slice());
    push_str(&mut out, "/");
    push_bytes(&mut out, page.as_slice());
    push_str(&mut out, ".md");
    let ghost before = out@;
    match hash {
        Some(h) => {
            let a = trimmed_copy(&target.as_slice()[h + 1..tn]);
            let anchor = normalize_anchor(a.as_slice());
            push_str(&mut out, "#");
            push_bytes(&mut out, anchor.as_slice());
        },
        None => {},
    }
    let ghost tail = out@.subrange(before.len() as int, out@.len() as int);
    push_str(&mut out, ")");
    assert(out@ =~= lit("[") + label@ + lit("](") + lit("../") + dir@ + lit("/") + page@ + lit(
        ".md",
    ) + tail + lit(")"));
    assert(tail =~= match hash {
        Some(h) => lit("#") + anchor_md(trimmed(target@.subrange(h + 1, tn as int))),
        None => Seq::empty(),
    });
    out
}

/// The whole match and the first group of a match, where both lie in the
/// text and the match starts at or after `cursor`.
pub open spec fn usable(m: Seq<Option<(int, int)>>, cursor: int, len: int) -> Option<
    (int, int, int, int),
> {
    if m.len() >= 2 {
        match (m[0], m[1]) {
            (Some((a, b)), Some((ia, ib))) => if cursor <= a <= b <= len && 0 <= ia <= ib <= len {
                Some((a, b, ia, ib))
            } else {
                None
            },
            _ => None,
        }
    } else {
        None
    }
}

/// `hay` from `cursor` on with each wiki link from the `k`-th match on
/// replaced by what stands for it: a link into the directory layout where
/// `filed`, else a link to the plain target.
pub open spec fn links_spliced_with(
    hay: Seq<u8>,
    ms: Seq<Seq<Option<(int, int)>>>,
    k: int,
    cursor: int,
    filed: bool,
) -> Seq<u8>
    decreases ms.len() - k,
{
    if k < 0 || k >= ms.len() {
        hay.subrange(cursor, hay.len() as int)
    } else {
        match usable(ms[k], cursor, hay.len() as int) {
            Some((a, b, ia, ib)) => hay.subrange(cursor, a) + (if filed {
                link_md(hay.subrange(ia, ib))
            } else {
                crate::convert::short::plain_link_md(hay.subrange(ia, ib))
            }) + links_spliced_with(hay, ms, k + 1, b, filed),
            None => links_spliced_with(hay, ms, k + 1, cursor, filed),
        }
    }
}

/// `[[target|label]]` becomes `[label](../t/target.md)`.
pub open spec fn wiki_links(t: Seq<u8>) -> Seq<u8> {
    links_spliced_with(normal(t), rematches(WIKI_LINK@, t), 0, 0, true)
}

/// Picks the whole match and the first group out of a match.
pub fn usable_match(m: &Vec<Option<(usize, usize)>>, cursor: usize, len: usize) -> (r: Option<
    (usize, usize, usize, usize),
>)
    ensures
        match r {
            Some((a, b, ia, ib)) => usable(groups_view(m@), cursor as int, len as int) == Some(
                (a as int, b as int, ia as int, ib as int),
            ) && cursor <= a <= b <= len && ia <= ib <= len,
            None => usable(groups_view(m@), cursor as int, len as int) is None,
        },
{
    if m.len() < 2 {
        return None;
    }
    match (m[0], m[1]) {
        (Some((a, b)), Some((ia, ib))) => if cursor <= a && a <= b && b <= len && ia <= ib && ib
            <= len {
            Some((a, b, ia, ib))
        } else {
            None
        },
        _ => None,
    }
}

pub fn convert_wiki_links(text: Vec<u8>) -> (out: Vec<u8>)
    ensures
        out@ == wiki_links(text@),
{
    splice_links(text, true)
}

/// Replaces each wiki link by what stands for it.
pub fn splice_links(text: Vec<u8>, filed: bool) -> (out: Vec<u8>)
    ensures
        out@ == links_spliced_with(normal(text@), rematches(WIKI_LINK@, text@), 0, 0, filed),
{
    let f = re_matches(WIKI_LINK, text.as_slice());
    let hay = f.hay.as_slice();
    let ghost ms = matches_view(f.matches@);
    let ghost goal = links_spliced_with(hay@, ms, 0, 0, filed);
    let mut out: Vec<u8> = Vec::new();
    let mut cursor: usize = 0;
    let mut k: usize = 0;
    assert(out@ + goal =~= goal);
    while k < f.matches.len()
        invariant
            k <= f.matches.len(),
            cursor <= hay@.len(),
            ms == matches_view(f.matches@),
            out@ + links_spliced_with(hay@, ms, k as int, cursor as int, filed) =~= goal,
        decreases f.matches.len() - k,
    {
        let ghost out0 = out@;
        let ghost here = links_spliced_with(hay@, ms, k as int, cursor as int, filed);
        assert(ms[k as int] == groups_view(f.matches@[k as int]@));
        match usable_match(&f.matches[k], cursor, hay.len()) {
            Some((a, b, ia, ib)) => {
                out.extend_from_slice(&hay[cursor..a]);
                let rep = if filed {
                    wiki_link_replacement(&hay[ia..ib])
                } else {
                    crate::convert::short::plain_link_replacement(&hay[ia..ib])
                };
                push_bytes(&mut out, rep.as_slice());
                proof {
                    let rest = links_spliced_with(hay@, ms, k + 1, b as int, filed);
                    let head = hay@.subrange(cursor as int, a as int) + rep@;
                    assert(out@ =~= out0 + head);
                    assert(here == head + rest);
                    lemma_concat_assoc(out0, head, rest);
                }
                cursor = b;
            },
            None => {},
        }
        k = k + 1;
    }
    out.extend_from_slice(&hay[cursor..hay.len()]);
    out
}

} // verus!
