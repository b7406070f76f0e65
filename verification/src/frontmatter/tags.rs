//! Tags for a page: from the links of its breadcrumb paragraph and from its
//! categories, each made into a word of lower-case letters, digits, `_` and
//! `-`.

use crate::ast::nodes::{
    file_params_view, inline_view, inlines_view, template_params_view, FileParam, FileParamView,
    InlineKind, InlineKindView, InlineNode, InlineNodeView, TemplateParam, TemplateParamView,
};
use crate::emit::{copy_bytes, push_bytes, push_str, replaced};
use crate::parse::inline::{lemma_concat_assoc, lit};
use crate::render::inline::{opt_bytes_view, trimmed, trimmed_copy};
use crate::text::{
    all_digits, digits_value, decoded, lower, skip_byte_run, skip_byte_run_back, skip_run,
    skip_run_back, string_from_bytes, to_lower, UNDERSCORE,
};
use vstd::prelude::*;
use vstd::string::*;
use vstd::utf8::encode_utf8;

verus! {

/// The transliteration of a text into ASCII.
pub uninterp spec fn deunicode_of(text: Seq<char>) -> Seq<char>;

/// `deunicode::deunicode`: the text with every character replaced by an
/// ASCII rendering of it. The result is a function of the text alone.
/// Nothing is proved of it here.
#[verifier::external_body]
pub(crate) fn transliterate(s: &str) -> (r: String)
    ensures
        r@ == deunicode_of(s@),
{
    deunicode::deunicode(s)
}

/// A byte that may stand in a tag.
pub open spec fn is_tag_byte(b: u8) -> bool {
    (97 <= b <= 122) || (48 <= b <= 57) || b == 95 || b == 45
}

/// A byte as it goes into a tag: in lower case, and `_` for what may not
/// stand in a tag.
pub open spec fn tag_byte(b: u8) -> u8 {
    if is_tag_byte(lower(b)) {
        lower(b)
    } else {
        UNDERSCORE
    }
}

pub open spec fn tag_bytes(s: Seq<u8>) -> Seq<u8> {
    Seq::new(s.len(), |i: int| tag_byte(s[i]))
}

/// `s` with each run of `_` made one `_`.
pub open spec fn collapsed(s: Seq<u8>) -> Seq<u8>
    decreases s.len(),
{
    if s.len() == 0 {
        Seq::empty()
    } else if s[s.len() - 1] == UNDERSCORE && s.len() >= 2 && s[s.len() - 2] == UNDERSCORE {
        collapsed(s.drop_last())
    } else {
        collapsed(s.drop_last()).push(s[s.len() - 1])
    }
}

/// `s` without the `_` at its two ends.
pub open spec fn bare(s: Seq<u8>) -> Seq<u8> {
    let a = skip_run(s, 0, s.len() as int, UNDERSCORE);
    s.subrange(a, skip_run_back(s, a, s.len() as int, UNDERSCORE))
}

/// `s`, at most 50 bytes of it.
pub open spec fn capped(s: Seq<u8>) -> Seq<u8> {
    if s.len() > 50 {
        s.subrange(0, 50)
    } else {
        s
    }
}

/// The tag that a word of tag bytes gives. A number gets a letter before
/// it: `y` where it reads as a year between 1400 and 2100, else `n`. A word
/// that does not start with a letter gets `t` before it. At most 50 bytes.
pub open spec fn word_tag(w: Seq<u8>) -> Seq<u8> {
    let n = w.len() as int;
    if all_digits(w, 0, n) {
        capped(
            (if n == 4 && 1400 <= digits_value(w, 0, n) <= 2100 {
                lit("y")
            } else {
                lit("n")
            }) + w,
        )
    } else if n > 0 && 97 <= w[0] <= 122 {
        capped(w)
    } else {
        capped(lit("t") + w)
    }
}

/// The tag that a name gives: its transliteration into ASCII, in lower case,
/// with `_` for every other character, runs of `_` made one and those at the
/// ends dropped; none where nothing is left.
pub open spec fn tag_of(raw: Seq<u8>) -> Option<Seq<u8>> {
    let t = trimmed(raw);
    let w = bare(collapsed(tag_bytes(encode_utf8(deunicode_of(decoded(t))))));
    if t.len() == 0 || w.len() == 0 {
        None
    } else {
        Some(word_tag(w))
    }
}

fn map_tag_bytes(s: &[u8]) -> (out: Vec<u8>)
    ensures
        out@ == tag_bytes(s@),
{
    let mut out: Vec<u8> = Vec::new();
    let mut i: usize = 0;
    while i < s.len()
        invariant
            i <= s.len(),
            out@.len() == i,
            forall|j: int| 0 <= j < i ==> out@[j] == tag_byte(s@[j]),
        decreases s.len() - i,
    {
        let b = to_lower(s[i]);
        if (97 <= b && b <= 122) || (48 <= b && b <= 57) || b == 95 || b == 45 {
            out.push(b);
        } else {
            out.push(UNDERSCORE);
        }
        i = i + 1;
    }
    assert(out@ =~= tag_bytes(s@));
    out
}

fn collapse_underscores(s: &[u8]) -> (out: Vec<u8>)
    ensures
        out@ == collapsed(s@),
{
    let mut out: Vec<u8> = Vec::new();
    let mut i: usize = 0;
    assert(s@.subrange(0, 0) =~= Seq::empty());
    while i < s.len()
        invariant
            i <= s.len(),
            out@ == collapsed(s@.subrange(0, i as int)),
        decreases s.len() - i,
    {
        let ghost next = s@.subrange(0, i + 1);
        assert(next.drop_last() =~= s@.subrange(0, i as int));
        assert(next[i as int] == s@[i as int]);
        if i >= 1 {
            assert(next[i - 1] == s@[i - 1]);
        }
        if !(s[i] == UNDERSCORE && i >= 1 && s[i - 1] == UNDERSCORE) {
            out.push(s[i]);
        }
        i = i + 1;
    }
    assert(s@.subrange(0, s@.len() as int) =~= s@);
    out
}

fn only_digits(s: &[u8]) -> (r: bool)
    ensures
        r == all_digits(s@, 0, s@.len() as int),
{
    let mut k: usize = 0;
    while k < s.len()
        invariant
            k <= s.len(),
            all_digits(s@, 0, k as int),
        decreases s.len() - k,
    {
        if !(48 <= s[k] && s[k] <= 57) {
            return false;
        }
        k = k + 1;
    }
    true
}

fn cap(mut s: Vec<u8>) -> (out: Vec<u8>)
    ensures
        out@ == capped(s@),
{
    if s.len() > 50 {
        s.truncate(50);
    }
    s
}

fn make_word_tag(w: &[u8]) -> (out: Vec<u8>)
    ensures
        out@ == word_tag(w@),
{
    let n: usize = w.len();
    let mut out: Vec<u8> = Vec::new();
    if only_digits(w) {
        let year = if n == 4 {
            proof {
                reveal_with_fuel(digits_value, 5);
            }
            let v: u32 = (w[0] - 48) as u32 * 1000 + (w[1] - 48) as u32 * 100 + (w[2] - 48) as u32
                * 10 + (w[3] - 48) as u32;
            assert(v == digits_value(w@, 0, 4));
            1400 <= v && v <= 2100
        } else {
            false
        };
        if year {
            push_str(&mut out, "y");
        } else {
            push_str(&mut out, "n");
        }
        push_bytes(&mut out, w);
        cap(out)
    } else if n > 0 && 97 <= w[0] && w[0] <= 122 {
        cap(copy_bytes(w))
    } else {
        push_str(&mut out, "t");
        push_bytes(&mut out, w);
        cap(out)
    }
}

/// Makes a name into a tag.
pub fn normalize_tag_bytes(raw: &[u8]) -> (r: Option<Vec<u8>>)
    ensures
        opt_bytes_view(r) == tag_of(raw@),
{
    let t = trimmed_copy(raw);
    if t.len() == 0 {
        return None;
    }
    let text = string_from_bytes(t.as_slice());
    let ascii = transliterate(text.as_str());
    let mapped = map_tag_bytes(ascii.as_str().as_bytes());
    let joined = collapse_underscores(mapped.as_slice());
    let a = skip_byte_run(joined.as_slice(), 0, joined.len(), UNDERSCORE);
    let b = skip_byte_run_back(joined.as_slice(), a, joined.len(), UNDERSCORE);
    if a >= b {
        return None;
    }
    Some(make_word_tag(&joined.as_slice()[a..b]))
}

pub open spec fn opt_text(r: Option<Seq<u8>>) -> Option<Seq<char>> {
    match r {
        Some(b) => Some(decoded(b)),
        None => None,
    }
}

/// Makes a name into a tag that Obsidian takes: lower-case ASCII letters,
/// digits, `_` and `-`, starting with a letter, at most 50 characters.
pub fn normalize_tag(raw: &str) -> (r: Option<String>)
    ensures
        crate::ast::diagnostic::opt_string_view(r) == opt_text(tag_of(raw.spec_bytes())),
{
    match normalize_tag_bytes(raw.as_bytes()) {
        Some(t) => Some(string_from_bytes(t.as_slice())),
        None => None,
    }
}

/// The targets of the internal links among the nodes from the `k`-th on and
/// below them, in the order in which they stand.
pub open spec fn link_targets(nodes: Seq<InlineNodeView>, k: int) -> Seq<Seq<char>>
    decreases nodes, nodes.len() - k,
{
    if k < 0 || k >= nodes.len() {
        Seq::empty()
    } else {
        node_targets(nodes[k]) + link_targets(nodes, k + 1)
    }
}

pub open spec fn node_targets(n: InlineNodeView) -> Seq<Seq<char>>
    decreases n, 0int,
{
    match n.kind {
        InlineKindView::InternalLink { target, text, .. } => seq![target] + (match text {
            Some(t) => link_targets(t, 0),
            None => Seq::empty(),
        }),
        InlineKindView::Bold { content } => link_targets(content, 0),
        InlineKindView::Italic { content } => link_targets(content, 0),
        InlineKindView::BoldItalic { content } => link_targets(content, 0),
        InlineKindView::Ref { content, .. } => match content {
            Some(c) => link_targets(c, 0),
            None => Seq::empty(),
        },
        InlineKindView::HtmlTag { children, .. } => link_targets(children, 0),
        InlineKindView::Template { params, .. } => template_targets(params, 0),
        InlineKindView::FileLink { params, .. } => file_targets(params, 0),
        InlineKindView::ExternalLink { text, .. } => match text {
            Some(t) => link_targets(t, 0),
            None => Seq::empty(),
        },
        _ => Seq::empty(),
    }
}

pub open spec fn template_targets(params: Seq<TemplateParamView>, k: int) -> Seq<Seq<char>>
    decreases params, params.len() - k,
{
    if k < 0 || k >= params.len() {
        Seq::empty()
    } else {
        link_targets(params[k].value, 0) + template_targets(params, k + 1)
    }
}

pub open spec fn file_targets(params: Seq<FileParamView>, k: int) -> Seq<Seq<char>>
    decreases params, params.len() - k,
{
    if k < 0 || k >= params.len() {
        Seq::empty()
    } else {
        link_targets(params[k].content, 0) + file_targets(params, k + 1)
    }
}

pub open spec fn targets_view(v: Seq<String>) -> Seq<Seq<char>> {
    Seq::new(v.len(), |i: int| v[i]@)
}

proof fn lemma_targets_push(v: Seq<String>, s: String)
    ensures
        targets_view(v.push(s)) =~= targets_view(v).push(s@),
{
}

/// Gathers the targets of the internal links among the nodes and below
/// them.
pub fn collect_internal_link_targets(nodes: &Vec<InlineNode>, out: &mut Vec<String>)
    ensures
        targets_view(final(out)@) == targets_view(old(out)@) + link_targets(
            inlines_view(nodes@),
            0,
        ),
    decreases nodes, 1int,
{
    let ghost nv = inlines_view(nodes@);
    let ghost goal = targets_view(out@) + link_targets(nv, 0);
    let mut k: usize = 0;
    while k < nodes.len()
        invariant
            k <= nodes.len(),
            nv == inlines_view(nodes@),
            targets_view(out@) + link_targets(nv, k as int) =~= goal,
        decreases nodes.len() - k,
    {
        let ghost o0 = targets_view(out@);
        assert(nv[k as int] == inline_view(nodes@[k as int]));
        collect_node_targets(&nodes[k], out);
        proof {
            lemma_concat_assoc(o0, node_targets(nv[k as int]), link_targets(nv, k + 1));
        }
        k = k + 1;
    }
    assert(link_targets(nv, k as int) =~= Seq::empty());
}

fn collect_node_targets(node: &InlineNode, out: &mut Vec<String>)
    ensures
        targets_view(final(out)@) == targets_view(old(out)@) + node_targets(inline_view(*node)),
    decreases node, 0int,
{
    let ghost o0 = targets_view(out@);
    assert(o0 + Seq::<Seq<char>>::empty() =~= o0);
    match &node.kind {
        InlineKind::InternalLink { link } => {
            proof {
                lemma_targets_push(out@, link.target);
            }
            out.push(link.target.clone());
            let ghost o1 = targets_view(out@);
            match &link.text {
                Some(t) => {
                    collect_internal_link_targets(t, out);
                    proof {
                        lemma_concat_assoc(o0, seq![link.target@], link_targets(inlines_view(t@), 0));
                    }
                },
                None => {
                    assert(o1 =~= o0 + (seq![link.target@] + Seq::<Seq<char>>::empty()));
                },
            }
        },
        InlineKind::Bold { content } => collect_internal_link_targets(content, out),
        InlineKind::Italic { content } => collect_internal_link_targets(content, out),
        InlineKind::BoldItalic { content } => collect_internal_link_targets(content, out),
        InlineKind::Ref { node: r } => match &r.content {
            Some(c) => collect_internal_link_targets(c, out),
            None => {},
        },
        InlineKind::HtmlTag { node: tag } => collect_internal_link_targets(&tag.children, out),
        InlineKind::Template { node: inv } => collect_template_targets(&inv.params, out),
        InlineKind::FileLink { link } => collect_file_targets(&link.params, out),
        InlineKind::ExternalLink { link } => match &link.text {
            Some(t) => collect_internal_link_targets(t, out),
            None => {},
        },
        _ => {},
    }
}


fn collect_template_targets(params: &Vec<TemplateParam>, out: &mut Vec<String>)
    ensures
        targets_view(final(out)@) == targets_view(old(out)@) + template_targets(
            template_params_view(params@),
            0,
        ),
    decreases params, 2int,
{
    let ghost pv = template_params_view(params@);
    let ghost goal = targets_view(out@) + template_targets(pv, 0);
    let mut k: usize = 0;
    while k < params.len()
        invariant
            k <= params.len(),
            pv == template_params_view(params@),
            targets_view(out@) + template_targets(pv, k as int) =~= goal,
        decreases params.len() - k,
    {
        let ghost ok = targets_view(out@);
        assert(pv[k as int].value == inlines_view(params@[k as int].value@));
        collect_internal_link_targets(&params[k].value, out);
        proof {
            lemma_concat_assoc(ok, link_targets(pv[k as int].value, 0), template_targets(pv, k + 1));
        }
        k = k + 1;
    }
    assert(template_targets(pv, k as int) =~= Seq::empty());
}

fn collect_file_targets(params: &Vec<FileParam>, out: &mut Vec<String>)
    ensures
        targets_view(final(out)@) == targets_view(old(out)@) + file_targets(
            file_params_view(params@),
            0,
        ),
    decreases params, 2int,
{
    let ghost pv = file_params_view(params@);
    let ghost goal = targets_view(out@) + file_targets(pv, 0);
    let mut k: usize = 0;
    while k < params.len()
        invariant
            k <= params.len(),
            pv == file_params_view(params@),
            targets_view(out@) + file_targets(pv, k as int) =~= goal,
        decreases params.len() - k,
    {
        let ghost ok = targets_view(out@);
        assert(pv[k as int].content == inlines_view(params@[k as int].content@));
        collect_internal_link_targets(&params[k].content, out);
        proof {
            lemma_concat_assoc(ok, link_targets(pv[k as int].content, 0), file_targets(pv, k + 1));
        }
        k = k + 1;
    }
    assert(file_targets(pv, k as int) =~= Seq::empty());
}

} // verus!
