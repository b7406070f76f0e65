//! Inline nodes to Markdown.
//!
//! Rendering is a function of the tree, the options and the footnotes
//! gathered so far: every `<ref>` adds its rendered content to the footnotes
//! and leaves a marker with its number.

use crate::ast::nodes::{
    attrs_view, file_params_view, inline_kind_view, inline_view, inlines_view,
    template_params_view, FileLink, FileParam, FileParamView, HtmlAttr, HtmlAttrView, HtmlTag,
    InlineKind, InlineKindView, InlineNode, InlineNodeView, InternalLink, TemplateInvocation,
    TemplateNameKind, TemplateParam, TemplateParamView,
};
use crate::emit::{
    blanks_start, copy_bytes, copy_range, decimal, pop_blanks, push_bytes, push_decimal, push_str,
    replace_byte, replaced,
};
use crate::parse::blocks::{skip_blanks, skip_space_tab};
use crate::parse::code::{attr_value, find_attr_value};
use crate::parse::inline::{lit, trim, trim_range};
use crate::render::options::{RenderOptions, RenderOptionsView};
use crate::text::{
    all_digits, blank, decimal_u32, ends_with, ends_with_ci, ends_with_pat, ends_with_pat_ci,
    eq_ci, equals_ci, is_blank, parse_u32, skip_byte_run_back, skip_run_back, CR, NL, SLASH, SPACE,
    STAR, UNDERSCORE,
};
use vstd::prelude::*;
use vstd::string::*;
use vstd::utf8::encode_utf8;

verus! {

/// The footnotes gathered while rendering.
pub struct RenderContext {
    pub refs: Vec<Vec<u8>>,
}

pub open spec fn refs_view(v: Seq<Vec<u8>>) -> Seq<Seq<u8>> {
    Seq::new(v.len(), |i: int| v[i]@)
}

impl View for RenderContext {
    type V = Seq<Seq<u8>>;

    open spec fn view(&self) -> Seq<Seq<u8>> {
        refs_view(self.refs@)
    }
}

/// A rendered piece and the footnotes after it.
pub struct Out {
    pub text: Seq<u8>,
    pub refs: Seq<Seq<u8>>,
}

/// `s` without the white space at its two ends.
pub open spec fn trimmed(s: Seq<u8>) -> Seq<u8> {
    s.subrange(trim_range(s, 0, s.len() as int).0, trim_range(s, 0, s.len() as int).1)
}

/// `s` without the `b`s at its end.
pub open spec fn without_trailing(s: Seq<u8>, b: u8) -> Seq<u8> {
    s.subrange(0, skip_run_back(s, 0, s.len() as int, b))
}

/// `s` without the spaces and tabs at its start.
pub open spec fn without_leading_blanks(s: Seq<u8>) -> Seq<u8> {
    s.subrange(skip_blanks(s, 0, s.len() as int), s.len() as int)
}

pub open spec fn ends_with_newline(s: Seq<u8>) -> bool {
    s.len() > 0 && s[s.len() - 1] == NL
}

/// Text as it goes into a paragraph: carriage returns and newlines become
/// spaces.
pub open spec fn text_md(value: Seq<u8>) -> Seq<u8> {
    replaced(replaced(value, CR, seq![SPACE]), NL, seq![SPACE])
}

/// The number of pixels that `s` names: digits and then `px`, between 1 and
/// 4096. With `any_case`, `PX` will do.
pub open spec fn px_value(s: Seq<u8>, any_case: bool) -> Option<u32> {
    let t = trimmed(s);
    let n = t.len() as int;
    if n > 2 && (if any_case {
        ends_with_pat_ci(t, 0, n, lit("px"))
    } else {
        ends_with_pat(t, 0, n, lit("px"))
    }) && all_digits(t, 0, n - 2) {
        match decimal_u32(t, 0, n - 2) {
            Some(v) => if 0 < v <= 4096 {
                Some(v)
            } else {
                None
            },
            None => None,
        }
    } else {
        None
    }
}

/// The plain text of a file parameter from its `k`-th node on, with `acc`
/// before it: the text and raw nodes joined; none where another kind of node
/// stands among them.
pub open spec fn plain_text_from(nodes: Seq<InlineNodeView>, k: int, acc: Seq<u8>) -> Option<
    Seq<u8>,
>
    decreases nodes.len() - k,
{
    if k < 0 || k >= nodes.len() {
        Some(acc)
    } else {
        match nodes[k].kind {
            InlineKindView::Text { value } => plain_text_from(
                nodes,
                k + 1,
                acc + encode_utf8(value),
            ),
            InlineKindView::Raw { text } => plain_text_from(nodes, k + 1, acc + encode_utf8(text)),
            _ => None,
        }
    }
}

pub open spec fn is_option_word(t: Seq<u8>) -> bool {
    let n = t.len() as int;
    ||| equals_ci(t, 0, n, lit("thumb"))
    ||| equals_ci(t, 0, n, lit("thumbnail"))
    ||| equals_ci(t, 0, n, lit("frame"))
    ||| equals_ci(t, 0, n, lit("frameless"))
    ||| equals_ci(t, 0, n, lit("border"))
    ||| equals_ci(t, 0, n, lit("right"))
    ||| equals_ci(t, 0, n, lit("left"))
    ||| equals_ci(t, 0, n, lit("center"))
    ||| equals_ci(t, 0, n, lit("none"))
    ||| equals_ci(t, 0, n, lit("upright"))
}

/// The parameter reads as a display option rather than as a caption: it is
/// plain text that is blank, an option word or a width in pixels.
pub open spec fn option_like(p: FileParamView) -> bool {
    match plain_text_from(p.content, 0, Seq::empty()) {
        Some(raw) => {
            let t = trimmed(raw);
            t.len() == 0 || is_option_word(t) || px_value(t, true) is Some
        },
        None => false,
    }
}

/// The index of the caption among the first `n` parameters: the last that
/// does not read as an option.
pub open spec fn caption_index(params: Seq<FileParamView>, n: int) -> Option<int>
    decreases n,
{
    if n <= 0 || n > params.len() {
        None
    } else if !option_like(params[n - 1]) {
        Some(n - 1)
    } else {
        caption_index(params, n - 1)
    }
}

/// The attributes as they stand in a tag: each after a space, with its
/// value, if any, in double quotes.
pub open spec fn attrs_md(attrs: Seq<HtmlAttrView>, k: int) -> Seq<u8>
    decreases attrs.len() - k,
{
    if k < 0 || k >= attrs.len() {
        Seq::empty()
    } else {
        seq![SPACE] + encode_utf8(attrs[k].name) + (match attrs[k].value {
            Some(v) => lit("=\"") + encode_utf8(v) + lit("\""),
            None => Seq::empty(),
        }) + attrs_md(attrs, k + 1)
    }
}

/// The link as Obsidian writes it: `[[Target#anchor|label]]`, with each part
/// only where it says more than the parts before it.
pub open spec fn wiki_link_md(
    target: Seq<u8>,
    anchor: Option<Seq<u8>>,
    label: Seq<u8>,
) -> Seq<u8> {
    let label_trim = trimmed(label);
    let a = match anchor {
        Some(x) => trimmed(x),
        None => Seq::empty(),
    };
    if is_blank(target, 0, target.len() as int) {
        if a.len() > 0 {
            if label_trim.len() == 0 || equals_ci(label_trim, 0, label_trim.len() as int, a) {
                lit("[[#") + a + lit("]]")
            } else {
                lit("[[#") + a + lit("|") + label_trim + lit("]]")
            }
        } else {
            label
        }
    } else {
        let title = trimmed(replaced(target, UNDERSCORE, seq![SPACE]));
        let same = label_trim.len() == 0 || label_trim == title;
        if a.len() > 0 {
            if same {
                lit("[[") + title + lit("#") + a + lit("]]")
            } else {
                lit("[[") + title + lit("#") + a + lit("|") + label_trim + lit("]]")
            }
        } else if same {
            lit("[[") + title + lit("]]")
        } else {
            lit("[[") + title + lit("|") + label_trim + lit("]]")
        }
    }
}

pub open spec fn opt_utf8(s: Option<Seq<char>>) -> Option<Seq<u8>> {
    match s {
        Some(v) => Some(encode_utf8(v)),
        None => None,
    }
}

/// What one inline node renders to.
pub open spec fn inline_md(n: InlineNodeView, o: RenderOptionsView, refs: Seq<Seq<u8>>) -> Out
    decreases n, 1int,
{
    kind_md(n.kind, o, refs)
}

/// What a node of kind `k` renders to.
pub open spec fn kind_md(k: InlineKindView, o: RenderOptionsView, refs: Seq<Seq<u8>>) -> Out
    decreases k, 0int,
{
    match k {
        InlineKindView::Text { value } => Out { text: text_md(encode_utf8(value)), refs },
        InlineKindView::Bold { content } => {
            let r = inlines_md(content, 0, o, Seq::empty(), refs);
            Out { text: lit("**") + r.text + lit("**"), refs: r.refs }
        },
        InlineKindView::Italic { content } => {
            let r = inlines_md(content, 0, o, Seq::empty(), refs);
            Out { text: lit("*") + r.text + lit("*"), refs: r.refs }
        },
        InlineKindView::BoldItalic { content } => {
            let r = inlines_md(content, 0, o, Seq::empty(), refs);
            Out { text: lit("***") + r.text + lit("***"), refs: r.refs }
        },
        InlineKindView::LineBreak => Out { text: lit("<br/>\n"), refs },
        InlineKindView::InternalLink { target, anchor, text } => {
            let r = match text {
                Some(nodes) => inlines_md(nodes, 0, o, Seq::empty(), refs),
                None => Out { text: replaced(encode_utf8(target), UNDERSCORE, seq![SPACE]), refs },
            };
            Out { text: wiki_link_md(encode_utf8(target), opt_utf8(anchor), r.text), refs: r.refs }
        },
        InlineKindView::ExternalLink { url, text } => match text {
            Some(nodes) => {
                let r = inlines_md(nodes, 0, o, Seq::empty(), refs);
                Out {
                    text: lit("[") + trimmed(r.text) + lit("](") + encode_utf8(url) + lit(")"),
                    refs: r.refs,
                }
            },
            None => Out { text: lit("<") + encode_utf8(url) + lit(">"), refs },
        },
        InlineKindView::FileLink { namespace, target, params } => {
            let r = match caption_index(params, params.len() as int) {
                Some(c) => if 0 <= c < params.len() {
                    inlines_md(params[c].content, 0, o, Seq::empty(), refs)
                } else {
                    Out { text: Seq::empty(), refs }
                },
                None => Out { text: encode_utf8(target), refs },
            };
            Out {
                text: lit("[") + trimmed(r.text) + lit("](") + without_trailing(
                    o.mediawiki_base_url,
                    SLASH,
                ) + lit("/File:") + replaced(encode_utf8(target), SPACE, seq![UNDERSCORE]) + lit(
                    ")",
                ),
                refs: r.refs,
            }
        },
        InlineKindView::Ref { content, .. } => {
            let r = match content {
                Some(c) => inlines_md(c, 0, o, Seq::empty(), refs),
                None => Out { text: Seq::empty(), refs },
            };
            Out {
                text: lit("[^") + decimal((r.refs.len() + 1) as nat) + lit("]"),
                refs: r.refs.push(r.text),
            }
        },
        InlineKindView::HtmlTag { name, attrs, children, self_closing } => {
            let id = if equals_ci(encode_utf8(name), 0, encode_utf8(name).len() as int, lit("span")) {
                attr_value(attrs, lit("id"), 0)
            } else {
                None
            };
            match id {
                Some(v) => {
                    let r = inlines_md(children, 0, o, Seq::empty(), refs);
                    Out {
                        text: lit("<a name=\"") + encode_utf8(v) + lit("\">") + (if is_blank(
                            r.text,
                            0,
                            r.text.len() as int,
                        ) {
                            Seq::empty()
                        } else {
                            r.text
                        }) + lit("</a>"),
                        refs: r.refs,
                    }
                },
                None => if self_closing {
                    Out { text: lit("<") + encode_utf8(name) + attrs_md(attrs, 0) + lit(" />"), refs }
                } else {
                    let r = inlines_md(children, 0, o, Seq::empty(), refs);
                    Out {
                        text: lit("<") + encode_utf8(name) + attrs_md(attrs, 0) + lit(">") + r.text
                            + lit("</") + encode_utf8(name) + lit(">"),
                        refs: r.refs,
                    }
                },
            }
        },
        InlineKindView::Template { raw, kind, params } => {
            if kind == TemplateNameKind::ParserFunction && equals_ci(
                encode_utf8(raw),
                0,
                encode_utf8(raw).len() as int,
                lit("#evu"),
            ) {
                let r = if params.len() > 0 {
                    inlines_md(params[0].value, 0, o, Seq::empty(), refs)
                } else {
                    Out { text: Seq::empty(), refs }
                };
                Out {
                    text: if is_blank(r.text, 0, r.text.len() as int) {
                        Seq::empty()
                    } else {
                        lit("[Video](") + trimmed(r.text) + lit(")")
                    },
                    refs: r.refs,
                }
            } else {
                let r = template_params_md(params, 0, o, refs);
                Out { text: lit("{{") + encode_utf8(raw) + r.text + lit("}}"), refs: r.refs }
            }
        },
        InlineKindView::Raw { text } => Out { text: encode_utf8(text), refs },
    }
}

/// The parameters of a template as they were written: each after a `|`,
/// with its name and `=` where it has a name.
pub open spec fn template_params_md(
    params: Seq<TemplateParamView>,
    k: int,
    o: RenderOptionsView,
    refs: Seq<Seq<u8>>,
) -> Out
    decreases params, params.len() - k,
{
    if k < 0 || k >= params.len() {
        Out { text: Seq::empty(), refs }
    } else {
        let v = inlines_md(params[k].value, 0, o, Seq::empty(), refs);
        let rest = template_params_md(params, k + 1, o, v.refs);
        Out {
            text: lit("|") + (match params[k].name {
                Some(n) => encode_utf8(n) + lit("="),
                None => Seq::empty(),
            }) + v.text + rest.text,
            refs: rest.refs,
        }
    }
}

/// A node renders as plain text: it is a text or a raw node.
pub open spec fn is_plain(n: InlineNodeView) -> bool {
    n.kind is Text || n.kind is Raw
}

/// What the nodes from the `k`-th on add to `out`.
///
/// A footnote marker attaches to what stands before it: the spaces and tabs
/// that `out` ends with are dropped before it. With the asterisk workaround,
/// every `*` of a plain node is replaced. After a newline, the next piece
/// loses its leading spaces and tabs.
pub open spec fn inlines_md(
    nodes: Seq<InlineNodeView>,
    k: int,
    o: RenderOptionsView,
    out: Seq<u8>,
    refs: Seq<Seq<u8>>,
) -> Out
    decreases nodes, nodes.len() - k,
{
    if k < 0 || k >= nodes.len() {
        Out { text: out, refs }
    } else {
        let before = if nodes[k].kind is Ref {
            out.subrange(0, blanks_start(out, 0, out.len() as int))
        } else {
            out
        };
        let r = inline_md(nodes[k], o, refs);
        inlines_md(nodes, k + 1, o, before + piece_md(nodes[k], o, before, r.text), r.refs)
    }
}

/// A node's rendered text as it is appended to `before`.
pub open spec fn piece_md(n: InlineNodeView, o: RenderOptionsView, before: Seq<u8>, text: Seq<u8>)
    -> Seq<u8> {
    let starred = if o.obsidian_text_asterisk_workaround && is_plain(n) {
        replaced(text, STAR, o.obsidian_text_asterisk_replacement)
    } else {
        text
    };
    if ends_with_newline(before) {
        without_leading_blanks(starred)
    } else {
        starred
    }
}


/// A copy of `s` without the white space at its two ends.
pub fn trimmed_copy(s: &[u8]) -> (out: Vec<u8>)
    ensures
        out@ == trimmed(s@),
{
    let (a, b) = trim(s, 0, s.len());
    copy_range(s, a, b)
}

/// Appends `s` without the white space at its two ends.
pub fn push_trimmed(buf: &mut Vec<u8>, s: &[u8])
    ensures
        final(buf)@ == old(buf)@ + trimmed(s@),
{
    let (a, b) = trim(s, 0, s.len());
    buf.extend_from_slice(&s[a..b]);
}

fn digits_only(s: &[u8], lo: usize, hi: usize) -> (r: bool)
    requires
        lo <= hi <= s.len(),
    ensures
        r == all_digits(s@, lo as int, hi as int),
{
    let mut k: usize = lo;
    while k < hi
        invariant
            lo <= k <= hi <= s.len(),
            all_digits(s@, lo as int, k as int),
        decreases hi - k,
    {
        if !(48 <= s[k] && s[k] <= 57) {
            return false;
        }
        k = k + 1;
    }
    true
}

/// Reads a width such as `200px`.
pub fn parse_px(s: &[u8], any_case: bool) -> (r: Option<u32>)
    ensures
        r == px_value(s@, any_case),
{
    let t = trimmed_copy(s);
    let n: usize = t.len();
    let px = "px".as_bytes();
    if n <= 2 {
        return None;
    }
    let suffix = if any_case {
        ends_with_ci(t.as_slice(), 0, n, px)
    } else {
        ends_with(t.as_slice(), 0, n, px)
    };
    if !suffix || !digits_only(t.as_slice(), 0, n - 2) {
        return None;
    }
    match parse_u32(t.as_slice(), 0, n - 2) {
        Some(v) => if 0 < v && v <= 4096 {
            Some(v)
        } else {
            None
        },
        None => None,
    }
}

pub open spec fn opt_bytes_view(r: Option<Vec<u8>>) -> Option<Seq<u8>> {
    match r {
        Some(v) => Some(v@),
        None => None,
    }
}

/// The parameter's text, if it is plain text.
pub fn file_param_plain_text(p: &FileParam) -> (r: Option<Vec<u8>>)
    ensures
        opt_bytes_view(r) == plain_text_from(inlines_view(p.content@), 0, Seq::empty()),
{
    let mut acc: Vec<u8> = Vec::new();
    let mut k: usize = 0;
    let ghost nodes = inlines_view(p.content@);
    while k < p.content.len()
        invariant
            k <= p.content.len(),
            nodes == inlines_view(p.content@),
            plain_text_from(nodes, k as int, acc@) == plain_text_from(nodes, 0, Seq::empty()),
        decreases p.content.len() - k,
    {
        assert(nodes[k as int] == inline_view(p.content@[k as int]));
        match &p.content[k].kind {
            InlineKind::Text { value } => {
                push_str(&mut acc, value.as_str());
            },
            InlineKind::Raw { text } => {
                push_str(&mut acc, text.as_str());
            },
            _ => {
                return None;
            },
        }
        k = k + 1;
    }
    Some(acc)
}

fn option_word(t: &[u8]) -> (r: bool)
    ensures
        r == is_option_word(t@),
{
    let n: usize = t.len();
    eq_ci(t, 0, n, "thumb".as_bytes()) || eq_ci(t, 0, n, "thumbnail".as_bytes()) || eq_ci(
        t,
        0,
        n,
        "frame".as_bytes(),
    ) || eq_ci(t, 0, n, "frameless".as_bytes()) || eq_ci(t, 0, n, "border".as_bytes()) || eq_ci(
        t,
        0,
        n,
        "right".as_bytes(),
    ) || eq_ci(t, 0, n, "left".as_bytes()) || eq_ci(t, 0, n, "center".as_bytes()) || eq_ci(
        t,
        0,
        n,
        "none".as_bytes(),
    ) || eq_ci(t, 0, n, "upright".as_bytes())
}

/// Tells whether the parameter reads as a display option.
pub fn file_param_is_option_like(p: &FileParam) -> (r: bool)
    ensures
        r == option_like(FileParamView { span: p.span, content: inlines_view(p.content@) }),
{
    match file_param_plain_text(p) {
        Some(raw) => {
            let t = trimmed_copy(raw.as_slice());
            t.len() == 0 || option_word(t.as_slice()) || parse_px(t.as_slice(), true).is_some()
        },
        None => false,
    }
}

/// Finds the caption among the parameters.
pub fn find_caption(params: &Vec<FileParam>) -> (r: Option<usize>)
    ensures
        crate::text::opt_int(r) == caption_index(
            file_params_view(params@),
            params@.len() as int,
        ),
        r matches Some(c) ==> c < params@.len(),
{
    let ghost pv = file_params_view(params@);
    let mut n: usize = params.len();
    while n > 0
        invariant
            n <= params.len(),
            pv == file_params_view(params@),
            caption_index(pv, n as int) == caption_index(pv, params@.len() as int),
        decreases n,
    {
        assert(pv[n - 1] == FileParamView {
            span: params@[n - 1].span,
            content: inlines_view(params@[n - 1].content@),
        });
        if !file_param_is_option_like(&params[n - 1]) {
            return Some(n - 1);
        }
        n = n - 1;
    }
    None
}

/// Writes the attributes of a tag.
pub fn push_attr_list(out: &mut Vec<u8>, attrs: &Vec<HtmlAttr>)
    ensures
        final(out)@ == old(out)@ + attrs_md(attrs_view(attrs@), 0),
{
    let ghost av = attrs_view(attrs@);
    let mut k: usize = 0;
    assert(out@ + attrs_md(av, 0) =~= old(out)@ + attrs_md(av, 0));
    while k < attrs.len()
        invariant
            k <= attrs.len(),
            av == attrs_view(attrs@),
            out@ + attrs_md(av, k as int) =~= old(out)@ + attrs_md(av, 0),
        decreases attrs.len() - k,
    {
        let ghost out0 = out@;
        let a = &attrs[k];
        assert(av[k as int] == a@);
        out.push(SPACE);
        push_str(out, a.name.as_str());
        match &a.value {
            Some(v) => {
                push_str(out, "=\"");
                push_str(out, v.as_str());
                push_str(out, "\"");
            },
            None => {},
        }
        assert(out@ =~= out0 + (seq![SPACE] + encode_utf8(av[k as int].name) + (match av[k as int].value {
            Some(v) => lit("=\"") + encode_utf8(v) + lit("\""),
            None => Seq::empty(),
        })));
        assert(out@ + attrs_md(av, k + 1) =~= out0 + attrs_md(av, k as int));
        k = k + 1;
    }
    assert(attrs_md(av, k as int) =~= Seq::empty());
}

/// Writes a wiki link.
pub fn render_wiki_link(target: &[u8], anchor: Option<&[u8]>, label: Vec<u8>) -> (out: Vec<u8>)
    ensures
        out@ == wiki_link_md(
            target@,
            match anchor {
                Some(x) => Some(x@),
                None => None,
            },
            label@,
        ),
{
    let label_trim = trimmed_copy(label.as_slice());
    let a = match anchor {
        Some(x) => trimmed_copy(x),
        None => Vec::new(),
    };
    let mut out: Vec<u8> = Vec::new();
    if blank(target, 0, target.len()) {
        if a.len() > 0 {
            push_str(&mut out, "[[#");
            push_bytes(&mut out, a.as_slice());
            if !(label_trim.len() == 0 || eq_ci(
                label_trim.as_slice(),
                0,
                label_trim.len(),
                a.as_slice(),
            )) {
                push_str(&mut out, "|");
                push_bytes(&mut out, label_trim.as_slice());
            }
            push_str(&mut out, "]]");
            out
        } else {
            label
        }
    } else {
        let spaced = replace_byte(target, UNDERSCORE, " ".as_bytes());
        proof {
            lemma_space_lit();
        }
        let title = trimmed_copy(spaced.as_slice());
        let same = label_trim.len() == 0 || bytes_eq(label_trim.as_slice(), title.as_slice());
        push_str(&mut out, "[[");
        push_bytes(&mut out, title.as_slice());
        if a.len() > 0 {
            push_str(&mut out, "#");
            push_bytes(&mut out, a.as_slice());
        }
        if !same {
            push_str(&mut out, "|");
            push_bytes(&mut out, label_trim.as_slice());
        }
        push_str(&mut out, "]]");
        out
    }
}

/// The one-byte literals that replacements are written with.
pub proof fn lemma_space_lit()
    ensures
        lit(" ") == seq![SPACE],
        lit("_") == seq![UNDERSCORE],
{
    reveal_strlit(" ");
    reveal_strlit("_");
    is_ascii_spec_bytes(" ");
    is_ascii_spec_bytes("_");
    assert(lit(" ") =~= seq![SPACE]);
    assert(lit("_") =~= seq![UNDERSCORE]);
}

/// Tells whether two byte strings are the same.
pub fn bytes_eq(a: &[u8], b: &[u8]) -> (r: bool)
    ensures
        r == (a@ == b@),
{
    if a.len() != b.len() {
        return false;
    }
    let mut k: usize = 0;
    while k < a.len()
        invariant
            k <= a.len(),
            a.len() == b.len(),
            forall|j: int| 0 <= j < k ==> a@[j] == b@[j],
        decreases a.len() - k,
    {
        if a[k] != b[k] {
            return false;
        }
        k = k + 1;
    }
    assert(a@ =~= b@);
    true
}


pub proof fn lemma_refs_view_push(v: Seq<Vec<u8>>, r: Vec<u8>)
    ensures
        refs_view(v.push(r)) =~= refs_view(v).push(r@),
{
}

fn wrap(open: &str, body: &[u8], close: &str) -> (out: Vec<u8>)
    ensures
        out@ == lit(open) + body@ + lit(close),
{
    let mut out: Vec<u8> = Vec::new();
    push_str(&mut out, open);
    push_bytes(&mut out, body);
    push_str(&mut out, close);
    assert(out@ =~= lit(open) + body@ + lit(close));
    out
}

/// Appends a rendered node to what has been rendered.
fn push_piece(out: &mut Vec<u8>, node: &InlineNode, opts: &RenderOptions, text: Vec<u8>)
    ensures
        final(out)@ == old(out)@ + piece_md(inline_view(*node), opts@, old(out)@, text@),
{
    let plain = match &node.kind {
        InlineKind::Text { .. } => true,
        InlineKind::Raw { .. } => true,
        _ => false,
    };
    let starred = if opts.obsidian_text_asterisk_workaround && plain {
        replace_byte(
            text.as_slice(),
            STAR,
            opts.obsidian_text_asterisk_replacement.as_str().as_bytes(),
        )
    } else {
        text
    };
    let n: usize = out.len();
    if n > 0 && out[n - 1] == NL {
        let from = skip_space_tab(starred.as_slice(), 0, starred.len());
        out.extend_from_slice(&starred.as_slice()[from..starred.len()]);
    } else {
        out.extend_from_slice(starred.as_slice());
    }
}

/// Renders one inline node.
pub fn render_inline(node: &InlineNode, ctx: &mut RenderContext, opts: &RenderOptions) -> (out: Vec<
    u8,
>)
    ensures
        out@ == inline_md(inline_view(*node), opts@, old(ctx)@).text,
        final(ctx)@ == inline_md(inline_view(*node), opts@, old(ctx)@).refs,
    decreases node, 0int,
{
    proof {
        lemma_space_lit();
    }
    match &node.kind {
        InlineKind::Text { value } => {
            let a = replace_byte(value.as_str().as_bytes(), CR, " ".as_bytes());
            replace_byte(a.as_slice(), NL, " ".as_bytes())
        },
        InlineKind::Bold { content } => {
            let r = render_inlines(content, 0, ctx, opts);
            wrap("**", r.as_slice(), "**")
        },
        InlineKind::Italic { content } => {
            let r = render_inlines(content, 0, ctx, opts);
            wrap("*", r.as_slice(), "*")
        },
        InlineKind::BoldItalic { content } => {
            let r = render_inlines(content, 0, ctx, opts);
            wrap("***", r.as_slice(), "***")
        },
        InlineKind::LineBreak => copy_bytes("<br/>\n".as_bytes()),
        InlineKind::InternalLink { link } => render_internal_link(link, ctx, opts),
        InlineKind::ExternalLink { link } => match &link.text {
            Some(nodes) => {
                let label = render_inlines(nodes, 0, ctx, opts);
                let mut out: Vec<u8> = Vec::new();
                push_str(&mut out, "[");
                push_trimmed(&mut out, label.as_slice());
                push_str(&mut out, "](");
                push_str(&mut out, link.url.as_str());
                push_str(&mut out, ")");
                assert(out@ =~= lit("[") + trimmed(label@) + lit("](") + encode_utf8(link.url@)
                    + lit(")"));
                out
            },
            None => wrap("<", link.url.as_str().as_bytes(), ">"),
        },
        InlineKind::FileLink { link } => render_file_link(link, ctx, opts),
        InlineKind::Ref { node: r } => {
            let content = match &r.content {
                Some(c) => render_inlines(c, 0, ctx, opts),
                None => Vec::new(),
            };
            proof {
                lemma_refs_view_push(ctx.refs@, content);
            }
            ctx.refs.push(content);
            let mut out: Vec<u8> = Vec::new();
            push_str(&mut out, "[^");
            push_decimal(&mut out, ctx.refs.len());
            push_str(&mut out, "]");
            assert(out@ =~= lit("[^") + decimal(ctx.refs@.len() as nat) + lit("]"));
            out
        },
        InlineKind::HtmlTag { node: tag } => render_html_tag(tag, ctx, opts),
        InlineKind::Template { node: inv } => render_template(inv, ctx, opts),
        InlineKind::Raw { text } => copy_bytes(text.as_str().as_bytes()),
    }
}

/// Renders the nodes from the `from`-th on.
pub fn render_inlines(
    nodes: &Vec<InlineNode>,
    from: usize,
    ctx: &mut RenderContext,
    opts: &RenderOptions,
) -> (out: Vec<u8>)
    ensures
        out@ == inlines_md(inlines_view(nodes@), from as int, opts@, Seq::empty(), old(ctx)@).text,
        final(ctx)@ == inlines_md(
            inlines_view(nodes@),
            from as int,
            opts@,
            Seq::empty(),
            old(ctx)@,
        ).refs,
    decreases nodes, 1int,
{
    let ghost nv = inlines_view(nodes@);
    let ghost goal = inlines_md(nv, from as int, opts@, Seq::empty(), ctx@);
    let mut out: Vec<u8> = Vec::new();
    let mut k: usize = from;
    while k < nodes.len()
        invariant
            nv == inlines_view(nodes@),
            inlines_md(nv, k as int, opts@, out@, ctx@) == goal,
        decreases nodes.len() - k,
    {
        let node = &nodes[k];
        assert(nv[k as int] == inline_view(*node));
        let is_ref = match &node.kind {
            InlineKind::Ref { .. } => true,
            _ => false,
        };
        if is_ref {
            pop_blanks(&mut out);
        }
        let text = render_inline(node, ctx, opts);
        push_piece(&mut out, node, opts, text);
        k = k + 1;
    }
    out
}

fn render_internal_link(link: &InternalLink, ctx: &mut RenderContext, opts: &RenderOptions) -> (out:
    Vec<u8>)
    ensures
        out@ == kind_md(
            inline_kind_view(InlineKind::InternalLink { link: *link }),
            opts@,
            old(ctx)@,
        ).text,
        final(ctx)@ == kind_md(
            inline_kind_view(InlineKind::InternalLink { link: *link }),
            opts@,
            old(ctx)@,
        ).refs,
    decreases link, 2int,
{
    proof {
        lemma_space_lit();
    }
    let label = match &link.text {
        Some(nodes) => render_inlines(nodes, 0, ctx, opts),
        None => replace_byte(link.target.as_str().as_bytes(), UNDERSCORE, " ".as_bytes()),
    };
    let anchor: Option<&[u8]> = match &link.anchor {
        Some(a) => Some(a.as_str().as_bytes()),
        None => None,
    };
    render_wiki_link(link.target.as_str().as_bytes(), anchor, label)
}


fn render_file_link(link: &FileLink, ctx: &mut RenderContext, opts: &RenderOptions) -> (out: Vec<u8>)
    ensures
        out@ == kind_md(inline_kind_view(InlineKind::FileLink { link: *link }), opts@, old(ctx)@).text,
        final(ctx)@ == kind_md(
            inline_kind_view(InlineKind::FileLink { link: *link }),
            opts@,
            old(ctx)@,
        ).refs,
    decreases link, 2int,
{
    proof {
        lemma_space_lit();
    }
    let ghost pv = file_params_view(link.params@);
    let caption = match find_caption(&link.params) {
        Some(c) => {
            assert(pv[c as int].content == inlines_view(link.params@[c as int].content@));
            render_inlines(&link.params[c].content, 0, ctx, opts)
        },
        None => copy_bytes(link.target.as_str().as_bytes()),
    };
    let base = opts.mediawiki_base_url.as_str().as_bytes();
    let base_end = skip_byte_run_back(base, 0, base.len(), SLASH);
    let file_target = replace_byte(link.target.as_str().as_bytes(), SPACE, "_".as_bytes());
    let mut out: Vec<u8> = Vec::new();
    push_str(&mut out, "[");
    push_trimmed(&mut out, caption.as_slice());
    push_str(&mut out, "](");
    out.extend_from_slice(&base[0..base_end]);
    push_str(&mut out, "/File:");
    push_bytes(&mut out, file_target.as_slice());
    push_str(&mut out, ")");
    assert(out@ =~= lit("[") + trimmed(caption@) + lit("](") + without_trailing(base@, SLASH)
        + lit("/File:") + file_target@ + lit(")"));
    out
}

fn render_html_tag(tag: &HtmlTag, ctx: &mut RenderContext, opts: &RenderOptions) -> (out: Vec<u8>)
    ensures
        out@ == kind_md(inline_kind_view(InlineKind::HtmlTag { node: *tag }), opts@, old(ctx)@).text,
        final(ctx)@ == kind_md(
            inline_kind_view(InlineKind::HtmlTag { node: *tag }),
            opts@,
            old(ctx)@,
        ).refs,
    decreases tag, 2int,
{
    let name = tag.name.as_str().as_bytes();
    let id = if eq_ci(name, 0, name.len(), "span".as_bytes()) {
        find_attr_value(&tag.attrs, "id".as_bytes())
    } else {
        None
    };
    let mut out: Vec<u8> = Vec::new();
    match id {
        Some(v) => {
            let inner = render_inlines(&tag.children, 0, ctx, opts);
            push_str(&mut out, "<a name=\"");
            push_str(&mut out, v.as_str());
            push_str(&mut out, "\">");
            if !blank(inner.as_slice(), 0, inner.len()) {
                push_bytes(&mut out, inner.as_slice());
            }
            push_str(&mut out, "</a>");
            assert(out@ =~= lit("<a name=\"") + encode_utf8(v@) + lit("\">") + (if is_blank(
                inner@,
                0,
                inner@.len() as int,
            ) {
                Seq::empty()
            } else {
                inner@
            }) + lit("</a>"));
            out
        },
        None => {
            push_str(&mut out, "<");
            push_bytes(&mut out, name);
            push_attr_list(&mut out, &tag.attrs);
            if tag.self_closing {
                push_str(&mut out, " />");
                assert(out@ =~= lit("<") + name@ + attrs_md(attrs_view(tag.attrs@), 0) + lit(" />"));
                return out;
            }
            push_str(&mut out, ">");
            let inner = render_inlines(&tag.children, 0, ctx, opts);
            push_bytes(&mut out, inner.as_slice());
            push_str(&mut out, "</");
            push_bytes(&mut out, name);
            push_str(&mut out, ">");
            assert(out@ =~= lit("<") + name@ + attrs_md(attrs_view(tag.attrs@), 0) + lit(">")
                + inner@ + lit("</") + name@ + lit(">"));
            out
        },
    }
}

fn render_template_params(
    params: &Vec<TemplateParam>,
    ctx: &mut RenderContext,
    opts: &RenderOptions,
) -> (out: Vec<u8>)
    ensures
        out@ == template_params_md(template_params_view(params@), 0, opts@, old(ctx)@).text,
        final(ctx)@ == template_params_md(template_params_view(params@), 0, opts@, old(ctx)@).refs,
    decreases params, 1int,
{
    let ghost pv = template_params_view(params@);
    let ghost goal = template_params_md(pv, 0, opts@, ctx@);
    let mut out: Vec<u8> = Vec::new();
    let mut k: usize = 0;
    assert(out@ + goal.text =~= goal.text);
    while k < params.len()
        invariant
            k <= params.len(),
            pv == template_params_view(params@),
            out@ + template_params_md(pv, k as int, opts@, ctx@).text =~= goal.text,
            template_params_md(pv, k as int, opts@, ctx@).refs == goal.refs,
        decreases params.len() - k,
    {
        let ghost out0 = out@;
        let ghost here = template_params_md(pv, k as int, opts@, ctx@);
        let p = &params[k];
        assert(pv[k as int] == TemplateParamView {
            span: p.span,
            name: crate::ast::diagnostic::opt_string_view(p.name),
            value: inlines_view(p.value@),
        });
        push_str(&mut out, "|");
        match &p.name {
            Some(n) => {
                push_str(&mut out, n.as_str());
                push_str(&mut out, "=");
            },
            None => {},
        }
        let v = render_inlines(&p.value, 0, ctx, opts);
        push_bytes(&mut out, v.as_slice());
        proof {
            let rest = template_params_md(pv, k + 1, opts@, ctx@);
            let head = lit("|") + (match pv[k as int].name {
                Some(n) => encode_utf8(n) + lit("="),
                None => Seq::empty(),
            }) + v@;
            assert(out@ =~= out0 + head);
            assert(here.text == head + rest.text);
            assert(out@ + rest.text =~= out0 + here.text);
        }
        k = k + 1;
    }
    assert(template_params_md(pv, k as int, opts@, ctx@).text =~= Seq::empty());
    out
}

fn render_template(inv: &TemplateInvocation, ctx: &mut RenderContext, opts: &RenderOptions) -> (out:
    Vec<u8>)
    ensures
        out@ == kind_md(inline_kind_view(InlineKind::Template { node: *inv }), opts@, old(ctx)@).text,
        final(ctx)@ == kind_md(
            inline_kind_view(InlineKind::Template { node: *inv }),
            opts@,
            old(ctx)@,
        ).refs,
    decreases inv, 2int,
{
    let raw = inv.name.raw.as_str().as_bytes();
    let is_fn = match inv.name.kind {
        TemplateNameKind::ParserFunction => true,
        TemplateNameKind::Template => false,
    };
    let ghost pv = template_params_view(inv.params@);
    let mut out: Vec<u8> = Vec::new();
    if is_fn && eq_ci(raw, 0, raw.len(), "#evu".as_bytes()) {
        let url = if inv.params.len() > 0 {
            assert(pv[0].value == inlines_view(inv.params@[0].value@));
            render_inlines(&inv.params[0].value, 0, ctx, opts)
        } else {
            Vec::new()
        };
        if !blank(url.as_slice(), 0, url.len()) {
            push_str(&mut out, "[Video](");
            push_trimmed(&mut out, url.as_slice());
            push_str(&mut out, ")");
            assert(out@ =~= lit("[Video](") + trimmed(url@) + lit(")"));
        }
        out
    } else {
        push_str(&mut out, "{{");
        push_bytes(&mut out, raw);
        let ps = render_template_params(&inv.params, ctx, opts);
        push_bytes(&mut out, ps.as_slice());
        push_str(&mut out, "}}");
        assert(out@ =~= lit("{{") + raw@ + ps@ + lit("}}"));
        out
    }
}

} // verus!
