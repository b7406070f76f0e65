//! The inline grammar: text runs, emphasis, links, templates, references,
//! line breaks and inline HTML tags.
//!
//! `inlines` says what a range of text parses to; `parse_inlines_in` computes
//! it. Positions are indices into the text that is parsed; a node's span is
//! its positions shifted by `base`, the offset of that text in the source.

use crate::ast::bounds::{
    attrs_within, file_params_within, inline_within, inlines_within, lemma_inlines_within_longer,
    template_params_within,
};
use crate::ast::diagnostic::{
    diagnostics_view, strings_view, Diagnostic, DiagnosticPhase, DiagnosticView, Severity,
};
use crate::ast::nodes::{
    attrs_view, file_params_view, inline_view, inlines_view, template_params_view, ExternalLink,
    FileLink, FileNamespace, FileParam, FileParamView, HtmlAttr, HtmlAttrView, HtmlTag,
    InlineKind, InlineKindView, InlineNode, InlineNodeView, InternalLink, RefNode,
    TemplateInvocation, TemplateName, TemplateNameKind, TemplateParam, TemplateParamView,
};
use crate::ast::span::Span;
use crate::parse::attrs::{attrs_from, parse_attrs, scan_token, token_end};
use crate::parse::util::{
    find_matching, find_top_level_eq, matching_end_from, ranges_view, ranges_within,
    split_ranges, split_top, top_level_eq_from,
};
use crate::text::{
    blank, byte_at, eq_ci, equals_ci, find, find_byte, find_ci, first_byte, first_match,
    first_match_ci, is_blank, is_byte, is_pair, matches_at, matches_at_ci, pair_at, skip_alpha,
    skip_alpha_run, skip_byte_run, skip_byte_run_back, skip_run, skip_run_back, skip_ws,
    skip_ws_back, starts_with, starts_with_ci, text, text_of, trim_end, trim_start, COLON, GT,
    HASH, LBRACE, LBRACKET, LT, PIPE, QUOTE, RBRACE, RBRACKET, SLASH,
};
use vstd::prelude::*;
use vstd::string::*;

verus! {

/// How deep inline constructs may nest. Content that lies deeper is kept as
/// one text node, with a warning.
pub const MAX_INLINE_DEPTH: usize = 12;

/// From this many equal opening delimiters in a row, the run is taken as
/// text, with a warning, and no match is looked for.
pub const PATHOLOGICAL_RUN: usize = 64;

/// The bytes of an ASCII literal.
pub open spec fn lit(p: &str) -> Seq<u8> {
    p.spec_bytes()
}

/// The span of the positions `[a, b)` of a text that starts at `base`.
pub open spec fn span_at(base: int, a: int, b: int) -> Span {
    Span { start: (base + a) as u64, end: (base + b) as u64 }
}

/// A parse-phase diagnostic with a code, a message and a span.
pub open spec fn note(severity: Severity, code: Seq<char>, message: Seq<char>, span: Span)
    -> DiagnosticView {
    DiagnosticView {
        severity,
        phase: Some(DiagnosticPhase::Parse),
        code: Some(code),
        message,
        span: Some(span),
        notes: Seq::empty(),
    }
}

pub open spec fn warning(code: Seq<char>, message: Seq<char>, span: Span) -> DiagnosticView {
    note(Severity::Warning, code, message, span)
}

/// What a range of text parses to: the nodes, and the diagnostics in the
/// order in which they arise.
pub struct Parsed {
    pub nodes: Seq<InlineNodeView>,
    pub diags: Seq<DiagnosticView>,
}

/// What stands at one position: a node and the position after it, or no
/// node; and the diagnostics that finding out gave rise to.
pub struct Step {
    pub node: Option<InlineNodeView>,
    pub next: int,
    pub diags: Seq<DiagnosticView>,
}

pub open spec fn no_step(i: int) -> Step {
    Step { node: None, next: i + 1, diags: Seq::empty() }
}

pub open spec fn text_node(s: Seq<u8>, base: int, a: int, b: int) -> InlineNodeView {
    InlineNodeView { span: span_at(base, a, b), kind: InlineKindView::Text { value: text(s, a, b) } }
}

/// The pending text run `[a, b)` as a node, if it is not empty.
pub open spec fn flush(s: Seq<u8>, base: int, a: int, b: int) -> Seq<InlineNodeView> {
    if a < b {
        seq![text_node(s, base, a, b)]
    } else {
        Seq::empty()
    }
}

/// `[lo, hi)` without the white space at its two ends.
pub open spec fn trim_range(s: Seq<u8>, lo: int, hi: int) -> (int, int) {
    (trim_start(s, lo, hi), trim_end(s, trim_start(s, lo, hi), hi))
}

/// The attribute list of the opening tag that starts at `i` and whose `>`
/// stands at `close`: what follows the `<`, the tag's name and white space,
/// up to the `>`, without trailing white space and, where `strip_slash`,
/// without trailing slashes.
pub open spec fn tag_attrs_range(s: Seq<u8>, i: int, close: int, strip_slash: bool) -> (int, int) {
    let a = trim_start(s, skip_alpha(s, skip_run(s, i, close, LT), close), close);
    let e = if strip_slash {
        skip_run_back(s, a, close, SLASH)
    } else {
        close
    };
    (a, trim_end(s, a, e))
}

pub open spec fn tag_attrs(s: Seq<u8>, i: int, close: int, strip_slash: bool) -> Seq<
    HtmlAttrView,
> {
    attrs_from(
        s,
        tag_attrs_range(s, i, close, strip_slash).0,
        tag_attrs_range(s, i, close, strip_slash).1,
    )
}

/// The opening tag whose `>` stands at `close` ends in `/>`.
pub open spec fn tag_self_closing(s: Seq<u8>, i: int, close: int) -> bool {
    i < close && 0 < close <= s.len() && s[close - 1] == SLASH
}

/// `<br>`, `<br/>`, `<br />`: anything that starts with `<br`, up to the
/// next `>`.
pub open spec fn line_break_at(s: Seq<u8>, i: int, hi: int, base: int) -> Step {
    if matches_at_ci(s, i, hi, lit("<br")) {
        match first_byte(s, i, hi, GT) {
            Some(e) => Step {
                node: Some(
                    InlineNodeView { span: span_at(base, i, e + 1), kind: InlineKindView::LineBreak },
                ),
                next: e + 1,
                diags: Seq::empty(),
            },
            None => no_step(i),
        }
    } else {
        no_step(i)
    }
}

/// The content of a construct, one level further down. With no `fuel` left
/// the content is not parsed: it is kept as one text node, with a warning.
pub open spec fn nested(s: Seq<u8>, lo: int, hi: int, base: int, fuel: nat) -> Parsed
    decreases fuel, 0int, 0int,
{
    if fuel == 0 {
        Parsed {
            nodes: flush(s, base, lo, hi),
            diags: seq![
                warning(
                    "wikitext.inline.depth_exceeded"@,
                    "Inline nesting too deep; content kept as text"@,
                    span_at(base, lo, hi),
                ),
            ],
        }
    } else {
        inlines(s, lo, hi, base, (fuel - 1) as nat)
    }
}

/// What `[lo, hi)` parses to, with `fuel` levels of nesting allowed below.
pub open spec fn inlines(s: Seq<u8>, lo: int, hi: int, base: int, fuel: nat) -> Parsed
    decreases fuel, 5int, 0int,
{
    scan(s, lo, lo, hi, base, fuel)
}

/// What `[text_start, hi)` parses to where `[text_start, i)` is a pending
/// text run.
pub open spec fn scan(s: Seq<u8>, text_start: int, i: int, hi: int, base: int, fuel: nat) -> Parsed
    decreases fuel, 4int, hi - i,
{
    if i >= hi {
        Parsed { nodes: flush(s, base, text_start, hi), diags: Seq::empty() }
    } else {
        let step = construct_at(s, i, hi, base, fuel);
        let next = if i < step.next <= hi {
            step.next
        } else {
            i + 1
        };
        match step.node {
            Some(n) => {
                let rest = scan(s, next, next, hi, base, fuel);
                Parsed {
                    nodes: flush(s, base, text_start, i) + seq![n] + rest.nodes,
                    diags: step.diags + rest.diags,
                }
            },
            None => {
                let rest = scan(s, text_start, next, hi, base, fuel);
                Parsed { nodes: rest.nodes, diags: step.diags + rest.diags }
            },
        }
    }
}

/// An opening delimiter (`{` or `[`) stands at `i` and starts a run of
/// `PATHOLOGICAL_RUN` or more of the same.
pub open spec fn pathological_at(s: Seq<u8>, i: int, hi: int) -> bool {
    &&& (byte_at(s, i, hi, LBRACE) || byte_at(s, i, hi, LBRACKET))
    &&& skip_run(s, i, hi, s[i]) - i >= PATHOLOGICAL_RUN
}

/// The construct that starts at `i`, tried in the grammar's order.
pub open spec fn construct_at(s: Seq<u8>, i: int, hi: int, base: int, fuel: nat) -> Step
    decreases fuel, 3int, 0int,
{
    if byte_at(s, i, hi, LT) {
        let br = line_break_at(s, i, hi, base);
        if br.node is Some {
            br
        } else {
            let r = ref_at(s, i, hi, base, fuel);
            if r.node is Some {
                r
            } else {
                let h = html_tag_at(s, i, hi, base, fuel);
                Step { node: h.node, next: h.next, diags: r.diags + h.diags }
            }
        }
    } else if pathological_at(s, i, hi) {
        Step {
            node: None,
            next: skip_run(s, i, hi, s[i]),
            diags: seq![
                warning(
                    "wikitext.inline.pathological_delim_run"@,
                    "Pathological run of opening delimiters; treating as text"@,
                    span_at(base, i, skip_run(s, i, hi, s[i])),
                ),
            ],
        }
    } else if pair_at(s, i, hi, LBRACKET, LBRACKET) {
        bracket_link_at(s, i, hi, base, fuel)
    } else if byte_at(s, i, hi, LBRACKET) {
        external_link_at(s, i, hi, base, fuel)
    } else if pair_at(s, i, hi, LBRACE, LBRACE) {
        template_at(s, i, hi, base, fuel)
    } else if pair_at(s, i, hi, QUOTE, QUOTE) {
        emphasis_at(s, i, hi, base, fuel)
    } else {
        no_step(i)
    }
}

/// `<ref ...>...</ref>` or `<ref ... />`. An opening tag that is never
/// closed gives a warning and no node.
pub open spec fn ref_at(s: Seq<u8>, i: int, hi: int, base: int, fuel: nat) -> Step
    decreases fuel, 2int, 0int,
{
    if !matches_at_ci(s, i, hi, lit("<ref")) {
        no_step(i)
    } else {
        match first_byte(s, i, hi, GT) {
            None => no_step(i),
            Some(oe) => {
                let attrs = tag_attrs(s, i, oe, false);
                if tag_self_closing(s, i, oe) {
                    Step {
                        node: Some(
                            InlineNodeView {
                                span: span_at(base, i, oe + 1),
                                kind: InlineKindView::Ref {
                                    attrs,
                                    content: None,
                                    self_closing: true,
                                },
                            },
                        ),
                        next: oe + 1,
                        diags: Seq::empty(),
                    }
                } else {
                    match first_match_ci(s, oe + 1, hi, lit("</ref>")) {
                        None => Step {
                            node: None,
                            next: i + 1,
                            diags: seq![
                                warning(
                                    "wikitext.ref.unclosed"@,
                                    "Unclosed <ref> tag"@,
                                    span_at(base, i, oe + 1),
                                ),
                            ],
                        },
                        Some(c) => {
                            let inner = if is_blank(s, oe + 1, c) {
                                Parsed { nodes: Seq::empty(), diags: Seq::empty() }
                            } else {
                                nested(s, oe + 1, c, base, fuel)
                            };
                            Step {
                                node: Some(
                                    InlineNodeView {
                                        span: span_at(base, i, c + lit("</ref>").len()),
                                        kind: InlineKindView::Ref {
                                            attrs,
                                            content: if is_blank(s, oe + 1, c) {
                                                None
                                            } else {
                                                Some(inner.nodes)
                                            },
                                            self_closing: false,
                                        },
                                    },
                                ),
                                next: c + lit("</ref>").len(),
                                diags: inner.diags,
                            }
                        },
                    }
                }
            },
        }
    }
}

/// `<span ...>...</span>` or `<span ... />`. An opening tag that is never
/// closed gives a warning and no node.
pub open spec fn html_tag_at(s: Seq<u8>, i: int, hi: int, base: int, fuel: nat) -> Step
    decreases fuel, 2int, 0int,
{
    if !matches_at_ci(s, i, hi, lit("<span")) {
        no_step(i)
    } else {
        match first_byte(s, i, hi, GT) {
            None => no_step(i),
            Some(oe) => {
                let attrs = tag_attrs(s, i, oe, true);
                if tag_self_closing(s, i, oe) {
                    Step {
                        node: Some(
                            InlineNodeView {
                                span: span_at(base, i, oe + 1),
                                kind: InlineKindView::HtmlTag {
                                    name: "span"@,
                                    attrs,
                                    children: Seq::empty(),
                                    self_closing: true,
                                },
                            },
                        ),
                        next: oe + 1,
                        diags: Seq::empty(),
                    }
                } else {
                    match first_match_ci(s, oe + 1, hi, lit("</span>")) {
                        None => Step {
                            node: None,
                            next: i + 1,
                            diags: seq![
                                warning(
                                    "wikitext.html.unclosed"@,
                                    "Unclosed <span> tag"@,
                                    span_at(base, i, oe + 1),
                                ),
                            ],
                        },
                        Some(c) => {
                            let inner = if oe + 1 >= c {
                                Parsed { nodes: Seq::empty(), diags: Seq::empty() }
                            } else {
                                nested(s, oe + 1, c, base, fuel)
                            };
                            Step {
                                node: Some(
                                    InlineNodeView {
                                        span: span_at(base, i, c + lit("</span>").len()),
                                        kind: InlineKindView::HtmlTag {
                                            name: "span"@,
                                            attrs,
                                            children: inner.nodes,
                                            self_closing: false,
                                        },
                                    },
                                ),
                                next: c + lit("</span>").len(),
                                diags: inner.diags,
                            }
                        },
                    }
                }
            },
        }
    }
}

/// `[[...]]`: a file link where the inside starts with `File:`, `Image:` or
/// `Media:`, an internal link otherwise. The link ends at the `]]` that
/// matches its `[[`, so that links may stand inside it. No node where no
/// such `]]` follows.
pub open spec fn bracket_link_at(s: Seq<u8>, i: int, hi: int, base: int, fuel: nat) -> Step
    decreases fuel, 2int, 1int,
{
    match matching_end_from(s, i, hi, 0, LBRACKET, RBRACKET) {
        None => no_step(i),
        Some(end) => {
            let c = end - 2;
            let it = trim_start(s, i + 2, c);
            if matches_at_ci(s, it, c, lit("file:")) || matches_at_ci(s, it, c, lit("image:"))
                || matches_at_ci(s, it, c, lit("media:")) {
                file_link(s, i, c, base, fuel)
            } else {
                internal_link(s, i, c, base, fuel)
            }
        },
    }
}

/// The target and the anchor of `[lo, hi)`: what stands before the first `#`,
/// and what stands after it unless that is empty.
pub open spec fn target_anchor(s: Seq<u8>, lo: int, hi: int) -> (Seq<char>, Option<Seq<char>>) {
    match first_byte(s, lo, hi, HASH) {
        Some(h) => (
            text(s, lo, h),
            if h + 1 < hi {
                Some(text(s, h + 1, hi))
            } else {
                None
            },
        ),
        None => (text(s, lo, hi), None),
    }
}

/// The internal link whose `[[` stands at `i` and whose `]]` stands at `c`.
pub open spec fn internal_link(s: Seq<u8>, i: int, c: int, base: int, fuel: nat) -> Step
    decreases fuel, 2int, 0int,
{
    let bar = first_byte(s, i + 2, c, PIPE);
    let target_hi = match bar {
        Some(p) => p,
        None => c,
    };
    let t = trim_range(s, i + 2, target_hi);
    let label = match bar {
        Some(p) => trim_range(s, p + 1, c),
        None => (c, c),
    };
    let inner = if label.0 < label.1 {
        nested(s, label.0, label.1, base, fuel)
    } else {
        Parsed { nodes: Seq::empty(), diags: Seq::empty() }
    };
    Step {
        node: Some(
            InlineNodeView {
                span: span_at(base, i, c + 2),
                kind: InlineKindView::InternalLink {
                    target: target_anchor(s, t.0, t.1).0,
                    anchor: target_anchor(s, t.0, t.1).1,
                    text: if label.0 < label.1 {
                        Some(inner.nodes)
                    } else {
                        None
                    },
                },
            },
        ),
        next: c + 2,
        diags: inner.diags,
    }
}

/// The namespace that the name in `[lo, hi)` stands for.
pub open spec fn namespace_of(s: Seq<u8>, lo: int, hi: int) -> FileNamespace {
    if equals_ci(s, lo, hi, lit("image")) {
        FileNamespace::Image
    } else if equals_ci(s, lo, hi, lit("media")) {
        FileNamespace::Media
    } else {
        FileNamespace::File
    }
}

/// The parameters that the segments from the `k`-th on give: one for each
/// segment that is not blank.
pub open spec fn file_params_from(
    s: Seq<u8>,
    parts: Seq<(int, int)>,
    k: int,
    base: int,
    fuel: nat,
) -> (Seq<FileParamView>, Seq<DiagnosticView>)
    decreases fuel, 1int, parts.len() - k,
{
    if k < 0 || k >= parts.len() {
        (Seq::empty(), Seq::empty())
    } else {
        let t = trim_range(s, parts[k].0, parts[k].1);
        let rest = file_params_from(s, parts, k + 1, base, fuel);
        if t.0 >= t.1 {
            rest
        } else {
            let inner = nested(s, t.0, t.1, base, fuel);
            (
                seq![
                    FileParamView {
                        span: span_at(base, parts[k].0, parts[k].1),
                        content: inner.nodes,
                    },
                ] + rest.0,
                inner.diags + rest.1,
            )
        }
    }
}

/// The file link whose `[[` stands at `i` and whose `]]` stands at `c`.
pub open spec fn file_link(s: Seq<u8>, i: int, c: int, base: int, fuel: nat) -> Step
    decreases fuel, 2int, 0int,
{
    let parts = split_ranges(s, i + 2, c, lit("|"));
    let f = trim_range(s, parts[0].0, parts[0].1);
    let colon = first_byte(s, f.0, f.1, COLON);
    let ns = match colon {
        Some(q) => namespace_of(s, trim_range(s, f.0, q).0, trim_range(s, f.0, q).1),
        None => FileNamespace::File,
    };
    let target = match colon {
        Some(q) => trim_range(s, q + 1, f.1),
        None => f,
    };
    let params = file_params_from(s, parts, 1, base, fuel);
    Step {
        node: Some(
            InlineNodeView {
                span: span_at(base, i, c + 2),
                kind: InlineKindView::FileLink {
                    namespace: ns,
                    target: text(s, target.0, target.1),
                    params: params.0,
                },
            },
        ),
        next: c + 2,
        diags: params.1,
    }
}

/// `[url label]`, where the inside starts with `http://` or `https://`. No
/// node otherwise, or where no `]` follows.
pub open spec fn external_link_at(s: Seq<u8>, i: int, hi: int, base: int, fuel: nat) -> Step
    decreases fuel, 2int, 0int,
{
    match first_byte(s, i + 1, hi, RBRACKET) {
        None => no_step(i),
        Some(e) => {
            let it = trim_start(s, i + 1, e);
            if matches_at(s, it, e, lit("http://")) || matches_at(s, it, e, lit("https://")) {
                let ue = token_end(s, it, e);
                let ls = trim_start(s, ue, e);
                let inner = if ls < e {
                    nested(s, ls, e, base, fuel)
                } else {
                    Parsed { nodes: Seq::empty(), diags: Seq::empty() }
                };
                Step {
                    node: Some(
                        InlineNodeView {
                            span: span_at(base, i, e + 1),
                            kind: InlineKindView::ExternalLink {
                                url: text(s, it, ue),
                                text: if ls < e {
                                    Some(inner.nodes)
                                } else {
                                    None
                                },
                            },
                        },
                    ),
                    next: e + 1,
                    diags: inner.diags,
                }
            } else {
                no_step(i)
            }
        },
    }
}

/// The parameters that the segments from the `k`-th on give: one for each
/// segment that is not blank, named where a top-level `=` stands in it.
pub open spec fn template_params_from(
    s: Seq<u8>,
    parts: Seq<(int, int)>,
    k: int,
    base: int,
    fuel: nat,
) -> (Seq<TemplateParamView>, Seq<DiagnosticView>)
    decreases fuel, 1int, parts.len() - k,
{
    if k < 0 || k >= parts.len() {
        (Seq::empty(), Seq::empty())
    } else {
        let t = trim_range(s, parts[k].0, parts[k].1);
        let rest = template_params_from(s, parts, k + 1, base, fuel);
        if t.0 >= t.1 {
            rest
        } else {
            let eq = top_level_eq_from(s, t.0, t.1, 0, 0);
            let v = match eq {
                Some(q) => trim_range(s, q + 1, t.1),
                None => t,
            };
            let inner = nested(s, v.0, v.1, base, fuel);
            (
                seq![
                    TemplateParamView {
                        span: span_at(base, parts[k].0, parts[k].1),
                        name: match eq {
                            Some(q) => Some(
                                text(s, trim_range(s, t.0, q).0, trim_range(s, t.0, q).1),
                            ),
                            None => None,
                        },
                        value: inner.nodes,
                    },
                ] + rest.0,
                inner.diags + rest.1,
            )
        }
    }
}

/// `{{...}}`: a template, or a parser function where the name starts with
/// `#`. A parser function's name ends at its first `:`, and what follows the
/// `:` is its first parameter. No node where the braces are not matched.
pub open spec fn template_at(s: Seq<u8>, i: int, hi: int, base: int, fuel: nat) -> Step
    decreases fuel, 2int, 0int,
{
    match matching_end_from(s, i, hi, 0, LBRACE, RBRACE) {
        None => no_step(i),
        Some(end) => {
            let parts = split_ranges(s, i + 2, end - 2, lit("|"));
            let f = trim_range(s, parts[0].0, parts[0].1);
            let is_fn = byte_at(s, f.0, f.1, HASH);
            let colon = if is_fn {
                first_byte(s, f.0, f.1, COLON)
            } else {
                None
            };
            let name = match colon {
                Some(q) => trim_range(s, f.0, q),
                None => f,
            };
            let arg = match colon {
                Some(q) => trim_range(s, q + 1, f.1),
                None => (f.1, f.1),
            };
            let first = if arg.0 < arg.1 {
                nested(s, arg.0, arg.1, base, fuel)
            } else {
                Parsed { nodes: Seq::empty(), diags: Seq::empty() }
            };
            let first_param = if arg.0 < arg.1 {
                seq![
                    TemplateParamView {
                        span: span_at(base, arg.0, arg.1),
                        name: None,
                        value: first.nodes,
                    },
                ]
            } else {
                Seq::empty()
            };
            let params = template_params_from(s, parts, 1, base, fuel);
            Step {
                node: Some(
                    InlineNodeView {
                        span: span_at(base, i, end),
                        kind: InlineKindView::Template {
                            raw: text(s, name.0, name.1),
                            kind: if is_fn {
                                TemplateNameKind::ParserFunction
                            } else {
                                TemplateNameKind::Template
                            },
                            params: first_param + params.0,
                        },
                    },
                ),
                next: end,
                diags: first.diags + params.1,
            }
        },
    }
}

/// The emphasised run that `delim` opens at `i`, if the same `delim` follows
/// later in `[i, hi)`.
pub open spec fn emphasis_with(
    s: Seq<u8>,
    i: int,
    hi: int,
    base: int,
    fuel: nat,
    delim: Seq<u8>,
) -> Option<(int, Parsed)>
    decreases fuel, 1int, 0int,
{
    if matches_at(s, i, hi, delim) {
        match first_match(s, i + delim.len(), hi, delim) {
            Some(c) => Some((c, nested(s, i + delim.len(), c, base, fuel))),
            None => None,
        }
    } else {
        None
    }
}

/// `'''''bold italic'''''`, `'''bold'''`, `''italic''`: the longest delimiter
/// that stands at `i` and stands again later in `[i, hi)`.
pub open spec fn emphasis_at(s: Seq<u8>, i: int, hi: int, base: int, fuel: nat) -> Step
    decreases fuel, 2int, 0int,
{
    match emphasis_with(s, i, hi, base, fuel, lit("'''''")) {
        Some((c, p)) => Step {
            node: Some(
                InlineNodeView {
                    span: span_at(base, i, c + lit("'''''").len()),
                    kind: InlineKindView::BoldItalic { content: p.nodes },
                },
            ),
            next: c + lit("'''''").len(),
            diags: p.diags,
        },
        None => match emphasis_with(s, i, hi, base, fuel, lit("'''")) {
            Some((c, p)) => Step {
                node: Some(
                    InlineNodeView {
                        span: span_at(base, i, c + lit("'''").len()),
                        kind: InlineKindView::Bold { content: p.nodes },
                    },
                ),
                next: c + lit("'''").len(),
                diags: p.diags,
            },
            None => match emphasis_with(s, i, hi, base, fuel, lit("''")) {
                Some((c, p)) => Step {
                    node: Some(
                        InlineNodeView {
                            span: span_at(base, i, c + lit("''").len()),
                            kind: InlineKindView::Italic { content: p.nodes },
                        },
                    ),
                    next: c + lit("''").len(),
                    diags: p.diags,
                },
                None => no_step(i),
            },
        },
    }
}


/// The diagnostics `after` are those of `before` and then `added`.
pub open spec fn diags_grow(
    before: Seq<Diagnostic>,
    after: Seq<Diagnostic>,
    added: Seq<DiagnosticView>,
) -> bool {
    diagnostics_view(after) =~= diagnostics_view(before) + added
}

/// The executable result `r` is the node and position of `st`.
pub open spec fn step_is(r: Option<(InlineNode, usize)>, st: Step) -> bool {
    match r {
        Some((n, next)) => st.node == Some(inline_view(n)) && st.next == next,
        None => st.node is None,
    }
}

pub proof fn lemma_inlines_view_push(v: Seq<InlineNode>, n: InlineNode)
    ensures
        inlines_view(v.push(n)) =~= inlines_view(v).push(inline_view(n)),
{
}

pub fn mk_span(base: usize, a: usize, b: usize) -> (sp: Span)
    requires
        a <= b,
        base + b <= usize::MAX,
    ensures
        sp == span_at(base as int, a as int, b as int),
        sp.start == base + a,
        sp.end == base + b,
        forall|len: int| base + b <= len ==> sp.within(len),
{
    Span { start: (base + a) as u64, end: (base + b) as u64 }
}

pub fn make_note(severity: Severity, code: &str, message: &str, span: Span) -> (d: Diagnostic)
    ensures
        d@ == note(severity, code@, message@, span),
{
    let d = Diagnostic {
        severity,
        phase: Some(DiagnosticPhase::Parse),
        code: Some(code.to_owned()),
        message: message.to_owned(),
        span: Some(span),
        notes: Vec::new(),
    };
    assert(strings_view(d.notes@) =~= Seq::empty());
    d
}

pub fn push_diag(diags: &mut Vec<Diagnostic>, d: Diagnostic)
    ensures
        diags_grow(old(diags)@, final(diags)@, seq![d@]),
        final(diags)@ == old(diags)@.push(d),
{
    diags.push(d);
}

pub fn push_warning(diags: &mut Vec<Diagnostic>, code: &str, message: &str, span: Span)
    ensures
        diags_grow(old(diags)@, final(diags)@, seq![warning(code@, message@, span)]),
{
    let d = make_note(Severity::Warning, code, message, span);
    push_diag(diags, d);
}

/// Drops the white space at the two ends of `[lo, hi)`.
pub fn trim(s: &[u8], lo: usize, hi: usize) -> (r: (usize, usize))
    requires
        lo <= hi <= s.len(),
    ensures
        r.0 == trim_range(s@, lo as int, hi as int).0,
        r.1 == trim_range(s@, lo as int, hi as int).1,
        lo <= r.0 <= r.1 <= hi,
{
    let a = skip_ws(s, lo, hi);
    let b = skip_ws_back(s, a, hi);
    (a, b)
}

/// Reads the attributes of the opening tag at `i` whose `>` stands at
/// `close`.
pub fn tag_attr_list(s: &[u8], i: usize, close: usize, strip_slash: bool) -> (out: Vec<HtmlAttr>)
    requires
        i <= close <= s.len(),
    ensures
        attrs_view(out@) == tag_attrs(s@, i as int, close as int, strip_slash),
        forall|len: int| attrs_within(attrs_view(out@), len),
{
    let a1 = skip_byte_run(s, i, close, LT);
    let a2 = skip_alpha_run(s, a1, close);
    let a = skip_ws(s, a2, close);
    let e = if strip_slash {
        skip_byte_run_back(s, a, close, SLASH)
    } else {
        close
    };
    let e2 = skip_ws_back(s, a, e);
    parse_attrs(s, a, e2)
}

fn text_inline(s: &[u8], base: usize, a: usize, b: usize) -> (n: InlineNode)
    requires
        a <= b <= s.len(),
        base + s.len() <= usize::MAX,
    ensures
        inline_view(n) == text_node(s@, base as int, a as int, b as int),
        forall|len: int| base + b <= len ==> inline_within(inline_view(n), len),
{
    InlineNode { span: mk_span(base, a, b), kind: InlineKind::Text { value: text_of(s, a, b) } }
}

fn flush_text(out: &mut Vec<InlineNode>, s: &[u8], base: usize, a: usize, b: usize)
    requires
        a <= b <= s.len(),
        base + s.len() <= usize::MAX,
    ensures
        inlines_view(final(out)@) =~= inlines_view(old(out)@) + flush(
            s@,
            base as int,
            a as int,
            b as int,
        ),
        forall|len: int|
            base + b <= len && inlines_within(inlines_view(old(out)@), len) ==> inlines_within(
                inlines_view(final(out)@),
                len,
            ),
{
    if a < b {
        let n = text_inline(s, base, a, b);
        proof {
            lemma_inlines_view_push(out@, n);
        }
        out.push(n);
    }
}

fn try_parse_line_break(s: &[u8], i: usize, hi: usize, base: usize) -> (r: Option<(InlineNode, usize)>)
    requires
        i < hi <= s.len(),
        base + s.len() <= usize::MAX,
    ensures
        step_is(r, line_break_at(s@, i as int, hi as int, base as int)),
        r matches Some((n, next)) ==> i < next <= hi && inline_within(inline_view(n), base + hi),
{
    if !starts_with_ci(s, i, hi, "<br".as_bytes()) {
        return None;
    }
    match find_byte(s, i, hi, GT) {
        Some(e) => Some((InlineNode { span: mk_span(base, i, e + 1), kind: InlineKind::LineBreak }, e + 1)),
        None => None,
    }
}

/// Parses the content of a construct, one level further down.
fn nested_inlines(
    s: &[u8],
    lo: usize,
    hi: usize,
    base: usize,
    fuel: usize,
    diags: &mut Vec<Diagnostic>,
) -> (out: Vec<InlineNode>)
    requires
        lo <= hi <= s.len(),
        base + s.len() <= usize::MAX,
    ensures
        inlines_view(out@) =~= nested(s@, lo as int, hi as int, base as int, fuel as nat).nodes,
        diags_grow(
            old(diags)@,
            final(diags)@,
            nested(s@, lo as int, hi as int, base as int, fuel as nat).diags,
        ),
        inlines_within(inlines_view(out@), base + hi),
    decreases fuel, 0int, 0int,
{
    if fuel == 0 {
        push_warning(
            diags,
            "wikitext.inline.depth_exceeded",
            "Inline nesting too deep; content kept as text",
            mk_span(base, lo, hi),
        );
        let mut out: Vec<InlineNode> = Vec::new();
        assert(inlines_view(out@) =~= Seq::empty());
        flush_text(&mut out, s, base, lo, hi);
        out
    } else {
        parse_inlines_in(s, lo, hi, base, fuel - 1, diags)
    }
}

/// One step of the scan where a construct stands at `i`.
proof fn lemma_scan_node(
    s: Seq<u8>,
    text_start: int,
    i: int,
    hi: int,
    base: int,
    fuel: nat,
    n: InlineNodeView,
    next: int,
)
    requires
        i < hi,
        i < next <= hi,
        construct_at(s, i, hi, base, fuel).node == Some(n),
        construct_at(s, i, hi, base, fuel).next == next,
    ensures
        scan(s, text_start, i, hi, base, fuel).nodes == flush(s, base, text_start, i) + seq![n]
            + scan(s, next, next, hi, base, fuel).nodes,
        scan(s, text_start, i, hi, base, fuel).diags == construct_at(s, i, hi, base, fuel).diags
            + scan(s, next, next, hi, base, fuel).diags,
{
}

/// One step of the scan where no construct stands at `i`.
proof fn lemma_scan_text(s: Seq<u8>, text_start: int, i: int, hi: int, base: int, fuel: nat, next: int)
    requires
        i < hi,
        i < next <= hi,
        construct_at(s, i, hi, base, fuel).node is None,
        construct_at(s, i, hi, base, fuel).next == next,
    ensures
        scan(s, text_start, i, hi, base, fuel).nodes == scan(
            s,
            text_start,
            next,
            hi,
            base,
            fuel,
        ).nodes,
        scan(s, text_start, i, hi, base, fuel).diags == construct_at(s, i, hi, base, fuel).diags
            + scan(s, text_start, next, hi, base, fuel).diags,
{
}

/// Appending in two steps is appending the concatenation.
pub proof fn lemma_concat_assoc<A>(a: Seq<A>, b: Seq<A>, c: Seq<A>)
    ensures
        (a + b) + c =~= a + (b + c),
{
}

/// Appends the pending text run and then the node `n`.
fn push_node(
    out: &mut Vec<InlineNode>,
    s: &[u8],
    base: usize,
    a: usize,
    b: usize,
    n: InlineNode,
    Ghost(limit): Ghost<int>,
)
    requires
        a <= b <= s.len(),
        base + s.len() <= usize::MAX,
        base + b <= limit,
        inlines_within(inlines_view(old(out)@), limit),
        inline_within(inline_view(n), limit),
    ensures
        inlines_view(final(out)@) == inlines_view(old(out)@) + (flush(
            s@,
            base as int,
            a as int,
            b as int,
        ) + seq![inline_view(n)]),
        inlines_within(inlines_view(final(out)@), limit),
{
    let ghost v0 = inlines_view(out@);
    flush_text(out, s, base, a, b);
    let ghost v1 = inlines_view(out@);
    proof {
        lemma_inlines_view_push(out@, n);
    }
    out.push(n);
    assert(inlines_view(out@) =~= v0 + (flush(s@, base as int, a as int, b as int) + seq![
        inline_view(n),
    ]));
}

/// Parses `[lo, hi)` of `s` into inline nodes, with `fuel` levels of nesting
/// allowed below; diagnostics are appended to `diags`.
#[verifier::rlimit(40)]
pub fn parse_inlines_in(
    s: &[u8],
    lo: usize,
    hi: usize,
    base: usize,
    fuel: usize,
    diags: &mut Vec<Diagnostic>,
) -> (out: Vec<InlineNode>)
    requires
        lo <= hi <= s.len(),
        base + s.len() <= usize::MAX,
    ensures
        inlines_view(out@) =~= inlines(s@, lo as int, hi as int, base as int, fuel as nat).nodes,
        diags_grow(
            old(diags)@,
            final(diags)@,
            inlines(s@, lo as int, hi as int, base as int, fuel as nat).diags,
        ),
        inlines_within(inlines_view(out@), base + hi),
    decreases fuel, 5int, 0int,
{
    let mut out: Vec<InlineNode> = Vec::new();
    let mut i: usize = lo;
    let mut text_start: usize = lo;
    let ghost total = inlines(s@, lo as int, hi as int, base as int, fuel as nat);
    let ghost d_in = diagnostics_view(diags@);
    assert(inlines_view(out@) =~= Seq::empty());
    while i < hi
        invariant
            lo <= text_start <= i <= hi <= s.len(),
            base + s.len() <= usize::MAX,
            inlines_view(out@) + scan(
                s@,
                text_start as int,
                i as int,
                hi as int,
                base as int,
                fuel as nat,
            ).nodes == total.nodes,
            diagnostics_view(diags@) + scan(
                s@,
                text_start as int,
                i as int,
                hi as int,
                base as int,
                fuel as nat,
            ).diags == d_in + total.diags,
            inlines_within(inlines_view(out@), base + hi),
        decreases hi - i,
    {
        let ghost step = construct_at(s@, i as int, hi as int, base as int, fuel as nat);
        let ghost d0 = diagnostics_view(diags@);
        let ghost v0 = inlines_view(out@);
        let (node, next) = construct(s, i, hi, base, fuel, diags);
        match node {
            Some(n) => {
                proof {
                    let rest = scan(
                        s@,
                        next as int,
                        next as int,
                        hi as int,
                        base as int,
                        fuel as nat,
                    );
                    lemma_scan_node(
                        s@,
                        text_start as int,
                        i as int,
                        hi as int,
                        base as int,
                        fuel as nat,
                        inline_view(n),
                        next as int,
                    );
                    lemma_concat_assoc(
                        v0,
                        flush(s@, base as int, text_start as int, i as int) + seq![inline_view(n)],
                        rest.nodes,
                    );
                    lemma_concat_assoc(d0, step.diags, rest.diags);
                }
                push_node(&mut out, s, base, text_start, i, n, Ghost(base + hi));
                i = next;
                text_start = next;
            },
            None => {
                proof {
                    let rest = scan(
                        s@,
                        text_start as int,
                        next as int,
                        hi as int,
                        base as int,
                        fuel as nat,
                    );
                    lemma_scan_text(
                        s@,
                        text_start as int,
                        i as int,
                        hi as int,
                        base as int,
                        fuel as nat,
                        next as int,
                    );
                    lemma_concat_assoc(d0, step.diags, rest.diags);
                }
                i = next;
            },
        }
    }
    flush_text(&mut out, s, base, text_start, hi);
    out
}

/// Tries the constructs that can start at `i`, in the grammar's order.
#[verifier::rlimit(40)]
fn construct(
    s: &[u8],
    i: usize,
    hi: usize,
    base: usize,
    fuel: usize,
    diags: &mut Vec<Diagnostic>,
) -> (r: (Option<InlineNode>, usize))
    requires
        i < hi <= s.len(),
        base + s.len() <= usize::MAX,
    ensures
        match r.0 {
            Some(n) => construct_at(s@, i as int, hi as int, base as int, fuel as nat).node
                == Some(inline_view(n)) && inline_within(inline_view(n), base + hi),
            None => construct_at(s@, i as int, hi as int, base as int, fuel as nat).node is None,
        },
        r.1 == construct_at(s@, i as int, hi as int, base as int, fuel as nat).next,
        i < r.1 <= hi,
        diags_grow(
            old(diags)@,
            final(diags)@,
            construct_at(s@, i as int, hi as int, base as int, fuel as nat).diags,
        ),
    decreases fuel, 3int, 0int,
{
    let b = s[i];
    if b == LT {
        if let Some((n, next)) = try_parse_line_break(s, i, hi, base) {
            return (Some(n), next);
        }
        let ghost d0 = diagnostics_view(diags@);
        if let Some((n, next)) = try_parse_ref_tag(s, i, hi, base, fuel, diags) {
            return (Some(n), next);
        }
        let ghost d1 = diagnostics_view(diags@);
        let r = try_parse_simple_html_tag(s, i, hi, base, fuel, diags);
        proof {
            let rs = ref_at(s@, i as int, hi as int, base as int, fuel as nat);
            let hs = html_tag_at(s@, i as int, hi as int, base as int, fuel as nat);
            assert(diagnostics_view(diags@) =~= d0 + (rs.diags + hs.diags));
        }
        match r {
            Some((n, next)) => (Some(n), next),
            None => (None, i + 1),
        }
    } else if b == LBRACE || b == LBRACKET {
        let run_end = skip_byte_run(s, i, hi, b);
        if run_end - i >= PATHOLOGICAL_RUN {
            push_warning(
                diags,
                "wikitext.inline.pathological_delim_run",
                "Pathological run of opening delimiters; treating as text",
                mk_span(base, i, run_end),
            );
            (None, run_end)
        } else if b == LBRACKET {
            if is_pair(s, i, hi, LBRACKET, LBRACKET) {
                match parse_bracket_link(s, i, hi, base, fuel, diags) {
                    Some((n, next)) => (Some(n), next),
                    None => (None, i + 1),
                }
            } else {
                match parse_external_link(s, i, hi, base, fuel, diags) {
                    Some((n, next)) => (Some(n), next),
                    None => (None, i + 1),
                }
            }
        } else if is_pair(s, i, hi, LBRACE, LBRACE) {
            match parse_template(s, i, hi, base, fuel, diags) {
                Some((n, next)) => (Some(n), next),
                None => (None, i + 1),
            }
        } else {
            (None, i + 1)
        }
    } else if is_pair(s, i, hi, QUOTE, QUOTE) {
        match try_parse_emphasis(s, i, hi, base, fuel, diags) {
            Some((n, next)) => (Some(n), next),
            None => (None, i + 1),
        }
    } else {
        (None, i + 1)
    }
}

/// What an attempt leaves behind: the step's node and position, its
/// diagnostics appended, and the node inside the text.
pub open spec fn attempt_ok(
    r: Option<(InlineNode, usize)>,
    st: Step,
    before: Seq<Diagnostic>,
    after: Seq<Diagnostic>,
    i: int,
    hi: int,
    limit: int,
) -> bool {
    &&& step_is(r, st)
    &&& diags_grow(before, after, st.diags)
    &&& (r is None ==> st.next == i + 1)
    &&& (r matches Some((n, next)) ==> i < next <= hi && inline_within(inline_view(n), limit))
}

fn try_parse_ref_tag(
    s: &[u8],
    i: usize,
    hi: usize,
    base: usize,
    fuel: usize,
    diags: &mut Vec<Diagnostic>,
) -> (r: Option<(InlineNode, usize)>)
    requires
        i < hi <= s.len(),
        base + s.len() <= usize::MAX,
    ensures
        attempt_ok(
            r,
            ref_at(s@, i as int, hi as int, base as int, fuel as nat),
            old(diags)@,
            final(diags)@,
            i as int,
            hi as int,
            base + hi,
        ),
    decreases fuel, 2int, 0int,
{
    if !starts_with_ci(s, i, hi, "<ref".as_bytes()) {
        return None;
    }
    let oe = match find_byte(s, i, hi, GT) {
        Some(oe) => oe,
        None => {
            return None;
        },
    };
    let attrs = tag_attr_list(s, i, oe, false);
    if oe > i && s[oe - 1] == SLASH {
        let n = InlineNode {
            span: mk_span(base, i, oe + 1),
            kind: InlineKind::Ref { node: RefNode { attrs, content: None, self_closing: true } },
        };
        return Some((n, oe + 1));
    }
    let close = "</ref>".as_bytes();
    let c = match find_ci(s, oe + 1, hi, close) {
        Some(c) => c,
        None => {
            push_warning(diags, "wikitext.ref.unclosed", "Unclosed <ref> tag", mk_span(base, i, oe + 1));
            return None;
        },
    };
    let content = if blank(s, oe + 1, c) {
        None
    } else {
        let v = nested_inlines(s, oe + 1, c, base, fuel, diags);
        proof {
            lemma_inlines_within_longer(inlines_view(v@), base + c, base + hi);
        }
        Some(v)
    };
    let next = c + close.len();
    let n = InlineNode {
        span: mk_span(base, i, next),
        kind: InlineKind::Ref { node: RefNode { attrs, content, self_closing: false } },
    };
    Some((n, next))
}

fn try_parse_simple_html_tag(
    s: &[u8],
    i: usize,
    hi: usize,
    base: usize,
    fuel: usize,
    diags: &mut Vec<Diagnostic>,
) -> (r: Option<(InlineNode, usize)>)
    requires
        i < hi <= s.len(),
        base + s.len() <= usize::MAX,
    ensures
        attempt_ok(
            r,
            html_tag_at(s@, i as int, hi as int, base as int, fuel as nat),
            old(diags)@,
            final(diags)@,
            i as int,
            hi as int,
            base + hi,
        ),
    decreases fuel, 2int, 0int,
{
    if !starts_with_ci(s, i, hi, "<span".as_bytes()) {
        return None;
    }
    let oe = match find_byte(s, i, hi, GT) {
        Some(oe) => oe,
        None => {
            return None;
        },
    };
    let attrs = tag_attr_list(s, i, oe, true);
    if oe > i && s[oe - 1] == SLASH {
        let children: Vec<InlineNode> = Vec::new();
        assert(inlines_view(children@) =~= Seq::empty());
        let n = InlineNode {
            span: mk_span(base, i, oe + 1),
            kind: InlineKind::HtmlTag {
                node: HtmlTag { name: "span".to_owned(), attrs, children, self_closing: true },
            },
        };
        return Some((n, oe + 1));
    }
    let close = "</span>".as_bytes();
    let c = match find_ci(s, oe + 1, hi, close) {
        Some(c) => c,
        None => {
            push_warning(
                diags,
                "wikitext.html.unclosed",
                "Unclosed <span> tag",
                mk_span(base, i, oe + 1),
            );
            return None;
        },
    };
    let children = if oe + 1 >= c {
        let v: Vec<InlineNode> = Vec::new();
        assert(inlines_view(v@) =~= Seq::empty());
        v
    } else {
        let v = nested_inlines(s, oe + 1, c, base, fuel, diags);
        proof {
            lemma_inlines_within_longer(inlines_view(v@), base + c, base + hi);
        }
        v
    };
    let next = c + close.len();
    let n = InlineNode {
        span: mk_span(base, i, next),
        kind: InlineKind::HtmlTag {
            node: HtmlTag { name: "span".to_owned(), attrs, children, self_closing: false },
        },
    };
    Some((n, next))
}


/// The lengths of the delimiters that the grammar is written with.
pub proof fn lemma_delimiter_lengths()
    ensures
        lit("]]").len() == 2,
        lit("|").len() == 1,
        lit("''").len() == 2,
        lit("'''").len() == 3,
        lit("'''''").len() == 5,
{
    reveal_strlit("]]");
    reveal_strlit("|");
    reveal_strlit("''");
    reveal_strlit("'''");
    reveal_strlit("'''''");
    is_ascii_spec_bytes("]]");
    is_ascii_spec_bytes("|");
    is_ascii_spec_bytes("''");
    is_ascii_spec_bytes("'''");
    is_ascii_spec_bytes("'''''");
}

pub proof fn lemma_file_params_view_push(v: Seq<FileParam>, p: FileParam)
    ensures
        file_params_view(v.push(p)) =~= file_params_view(v).push(
            FileParamView { span: p.span, content: inlines_view(p.content@) },
        ),
{
}

pub proof fn lemma_template_params_view_push(v: Seq<TemplateParam>, p: TemplateParam)
    ensures
        template_params_view(v.push(p)) =~= template_params_view(v).push(
            TemplateParamView {
                span: p.span,
                name: crate::ast::diagnostic::opt_string_view(p.name),
                value: inlines_view(p.value@),
            },
        ),
{
}

fn split_target_anchor(s: &[u8], lo: usize, hi: usize) -> (r: (String, Option<String>))
    requires
        lo <= hi <= s.len(),
    ensures
        r.0@ == target_anchor(s@, lo as int, hi as int).0,
        crate::ast::diagnostic::opt_string_view(r.1) == target_anchor(
            s@,
            lo as int,
            hi as int,
        ).1,
{
    match find_byte(s, lo, hi, HASH) {
        Some(h) => (
            text_of(s, lo, h),
            if h + 1 < hi {
                Some(text_of(s, h + 1, hi))
            } else {
                None
            },
        ),
        None => (text_of(s, lo, hi), None),
    }
}

fn parse_bracket_link(
    s: &[u8],
    i: usize,
    hi: usize,
    base: usize,
    fuel: usize,
    diags: &mut Vec<Diagnostic>,
) -> (r: Option<(InlineNode, usize)>)
    requires
        i < hi <= s.len(),
        base + s.len() <= usize::MAX,
        pair_at(s@, i as int, hi as int, LBRACKET, LBRACKET),
    ensures
        attempt_ok(
            r,
            bracket_link_at(s@, i as int, hi as int, base as int, fuel as nat),
            old(diags)@,
            final(diags)@,
            i as int,
            hi as int,
            base + hi,
        ),
    decreases fuel, 2int, 1int,
{
    proof {
        lemma_delimiter_lengths();
    }
    let c = match find_matching(s, i, hi, LBRACKET, RBRACKET) {
        Some(end) => end - 2,
        None => {
            return None;
        },
    };
    let it = skip_ws(s, i + 2, c);
    let n = if starts_with_ci(s, it, c, "file:".as_bytes()) || starts_with_ci(
        s,
        it,
        c,
        "image:".as_bytes(),
    ) || starts_with_ci(s, it, c, "media:".as_bytes()) {
        parse_file_link(s, i, c, base, fuel, diags)
    } else {
        parse_internal_link(s, i, c, base, fuel, diags)
    };
    proof {
        crate::ast::bounds::lemma_inline_within_longer(inline_view(n), base + c + 2, base + hi);
    }
    Some((n, c + 2))
}

fn parse_internal_link(
    s: &[u8],
    i: usize,
    c: usize,
    base: usize,
    fuel: usize,
    diags: &mut Vec<Diagnostic>,
) -> (n: InlineNode)
    requires
        i + 2 <= c,
        c + 2 <= s.len(),
        base + s.len() <= usize::MAX,
    ensures
        internal_link(s@, i as int, c as int, base as int, fuel as nat).node == Some(
            inline_view(n),
        ),
        diags_grow(
            old(diags)@,
            final(diags)@,
            internal_link(s@, i as int, c as int, base as int, fuel as nat).diags,
        ),
        inline_within(inline_view(n), base + c + 2),
    decreases fuel, 2int, 0int,
{
    let bar = find_byte(s, i + 2, c, PIPE);
    let target_hi = match bar {
        Some(p) => p,
        None => c,
    };
    let (ts, te) = trim(s, i + 2, target_hi);
    let (target, anchor) = split_target_anchor(s, ts, te);
    let (ls, le) = match bar {
        Some(p) => trim(s, p + 1, c),
        None => (c, c),
    };
    let text = if ls < le {
        let v = nested_inlines(s, ls, le, base, fuel, diags);
        proof {
            lemma_inlines_within_longer(inlines_view(v@), base + le, base + c + 2);
        }
        Some(v)
    } else {
        None
    };
    InlineNode {
        span: mk_span(base, i, c + 2),
        kind: InlineKind::InternalLink { link: InternalLink { target, anchor, text } },
    }
}

fn namespace(s: &[u8], lo: usize, hi: usize) -> (ns: FileNamespace)
    requires
        lo <= hi <= s.len(),
    ensures
        ns == namespace_of(s@, lo as int, hi as int),
{
    if eq_ci(s, lo, hi, "image".as_bytes()) {
        FileNamespace::Image
    } else if eq_ci(s, lo, hi, "media".as_bytes()) {
        FileNamespace::Media
    } else {
        FileNamespace::File
    }
}

#[verifier::rlimit(40)]
fn parse_file_link(
    s: &[u8],
    i: usize,
    c: usize,
    base: usize,
    fuel: usize,
    diags: &mut Vec<Diagnostic>,
) -> (n: InlineNode)
    requires
        i + 2 <= c,
        c + 2 <= s.len(),
        base + s.len() <= usize::MAX,
    ensures
        file_link(s@, i as int, c as int, base as int, fuel as nat).node == Some(inline_view(n)),
        diags_grow(
            old(diags)@,
            final(diags)@,
            file_link(s@, i as int, c as int, base as int, fuel as nat).diags,
        ),
        inline_within(inline_view(n), base + c + 2),
    decreases fuel, 2int, 0int,
{
    proof {
        lemma_delimiter_lengths();
    }
    let parts = split_top(s, i + 2, c, "|".as_bytes());
    let ghost pv = ranges_view(parts@);
    let (fs, fe) = trim(s, parts[0].0, parts[0].1);
    let colon = find_byte(s, fs, fe, COLON);
    let ns = match colon {
        Some(q) => {
            let (a, b) = trim(s, fs, q);
            namespace(s, a, b)
        },
        None => FileNamespace::File,
    };
    let (t0, t1) = match colon {
        Some(q) => trim(s, q + 1, fe),
        None => (fs, fe),
    };
    let target = text_of(s, t0, t1);
    let mut params: Vec<FileParam> = Vec::new();
    let ghost total = file_params_from(s@, pv, 1, base as int, fuel as nat);
    let mut k: usize = 1;
    assert(file_params_view(params@) =~= Seq::empty());
    while k < parts.len()
        invariant
            1 <= k <= parts.len(),
            i + 2 <= c,
            c + 2 <= s.len(),
            base + s.len() <= usize::MAX,
            pv == ranges_view(parts@),
            ranges_within(parts@, i + 2, c as int),
            total == file_params_from(s@, pv, 1, base as int, fuel as nat),
            file_params_view(params@) + file_params_from(
                s@,
                pv,
                k as int,
                base as int,
                fuel as nat,
            ).0 =~= total.0,
            diagnostics_view(diags@) + file_params_from(
                s@,
                pv,
                k as int,
                base as int,
                fuel as nat,
            ).1 =~= diagnostics_view(old(diags)@) + total.1,
            file_params_within(file_params_view(params@), base + c + 2),
        decreases parts.len() - k,
    {
        let seg = parts[k];
        assert(pv[k as int] == (seg.0 as int, seg.1 as int));
        let ghost here = file_params_from(s@, pv, k as int, base as int, fuel as nat);
        let ghost rest = file_params_from(s@, pv, k + 1, base as int, fuel as nat);
        let ghost d0 = diagnostics_view(diags@);
        let ghost v0 = file_params_view(params@);
        let (ts, te) = trim(s, seg.0, seg.1);
        if ts < te {
            let nodes = nested_inlines(s, ts, te, base, fuel, diags);
            let p = FileParam { span: mk_span(base, seg.0, seg.1), content: nodes };
            proof {
                lemma_inlines_within_longer(inlines_view(nodes@), base + te, base + c + 2);
                lemma_file_params_view_push(params@, p);
                let inner = nested(s@, ts as int, te as int, base as int, fuel as nat);
                assert(here.0 == seq![
                    FileParamView { span: p.span, content: inner.nodes },
                ] + rest.0);
                assert(here.1 == inner.diags + rest.1);
            }
            params.push(p);
            assert(file_params_view(params@) + rest.0 =~= v0 + here.0);
            assert(diagnostics_view(diags@) + rest.1 =~= d0 + here.1);
        } else {
            assert(here == rest);
        }
        k = k + 1;
    }
    InlineNode {
        span: mk_span(base, i, c + 2),
        kind: InlineKind::FileLink { link: FileLink { namespace: ns, target, params } },
    }
}

fn parse_external_link(
    s: &[u8],
    i: usize,
    hi: usize,
    base: usize,
    fuel: usize,
    diags: &mut Vec<Diagnostic>,
) -> (r: Option<(InlineNode, usize)>)
    requires
        i < hi <= s.len(),
        base + s.len() <= usize::MAX,
    ensures
        attempt_ok(
            r,
            external_link_at(s@, i as int, hi as int, base as int, fuel as nat),
            old(diags)@,
            final(diags)@,
            i as int,
            hi as int,
            base + hi,
        ),
    decreases fuel, 2int, 0int,
{
    let e = match find_byte(s, i + 1, hi, RBRACKET) {
        Some(e) => e,
        None => {
            return None;
        },
    };
    let it = skip_ws(s, i + 1, e);
    if !(starts_with(s, it, e, "http://".as_bytes()) || starts_with(
        s,
        it,
        e,
        "https://".as_bytes(),
    )) {
        return None;
    }
    let ue = scan_token(s, it, e);
    let ls = skip_ws(s, ue, e);
    let url = text_of(s, it, ue);
    let text = if ls < e {
        let v = nested_inlines(s, ls, e, base, fuel, diags);
        proof {
            lemma_inlines_within_longer(inlines_view(v@), base + e, base + hi);
        }
        Some(v)
    } else {
        None
    };
    let n = InlineNode {
        span: mk_span(base, i, e + 1),
        kind: InlineKind::ExternalLink { link: ExternalLink { url, text } },
    };
    Some((n, e + 1))
}

#[verifier::rlimit(50)]
fn parse_template(
    s: &[u8],
    i: usize,
    hi: usize,
    base: usize,
    fuel: usize,
    diags: &mut Vec<Diagnostic>,
) -> (r: Option<(InlineNode, usize)>)
    requires
        i < hi <= s.len(),
        base + s.len() <= usize::MAX,
    ensures
        attempt_ok(
            r,
            template_at(s@, i as int, hi as int, base as int, fuel as nat),
            old(diags)@,
            final(diags)@,
            i as int,
            hi as int,
            base + hi,
        ),
    decreases fuel, 2int, 0int,
{
    proof {
        lemma_delimiter_lengths();
    }
    let end = match find_matching(s, i, hi, LBRACE, RBRACE) {
        Some(end) => end,
        None => {
            return None;
        },
    };
    let c = end - 2;
    let parts = split_top(s, i + 2, c, "|".as_bytes());
    let ghost pv = ranges_view(parts@);
    let (fs, fe) = trim(s, parts[0].0, parts[0].1);
    let is_fn = is_byte(s, fs, fe, HASH);
    let colon = if is_fn {
        find_byte(s, fs, fe, COLON)
    } else {
        None
    };
    let (n0, n1) = match colon {
        Some(q) => trim(s, fs, q),
        None => (fs, fe),
    };
    let (a0, a1) = match colon {
        Some(q) => trim(s, q + 1, fe),
        None => (fe, fe),
    };
    let raw = text_of(s, n0, n1);
    let mut params: Vec<TemplateParam> = Vec::new();
    assert(template_params_view(params@) =~= Seq::empty());
    let ghost d_in = diagnostics_view(diags@);
    let ghost first = if a0 < a1 {
        nested(s@, a0 as int, a1 as int, base as int, fuel as nat)
    } else {
        Parsed { nodes: Seq::empty(), diags: Seq::empty() }
    };
    if a0 < a1 {
        let nodes = nested_inlines(s, a0, a1, base, fuel, diags);
        let p = TemplateParam { span: mk_span(base, a0, a1), name: None, value: nodes };
        proof {
            lemma_inlines_within_longer(inlines_view(nodes@), base + a1, base + hi);
            lemma_template_params_view_push(params@, p);
        }
        params.push(p);
    }
    let ghost first_param = template_params_view(params@);
    let ghost total = template_params_from(s@, pv, 1, base as int, fuel as nat);
    let mut k: usize = 1;
    assert(diagnostics_view(diags@) =~= d_in + first.diags);
    while k < parts.len()
        invariant
            1 <= k <= parts.len(),
            i + 2 <= c,
            c + 2 <= hi <= s.len(),
            base + s.len() <= usize::MAX,
            pv == ranges_view(parts@),
            ranges_within(parts@, i + 2, c as int),
            total == template_params_from(s@, pv, 1, base as int, fuel as nat),
            template_params_view(params@) + template_params_from(
                s@,
                pv,
                k as int,
                base as int,
                fuel as nat,
            ).0 =~= first_param + total.0,
            diagnostics_view(diags@) + template_params_from(
                s@,
                pv,
                k as int,
                base as int,
                fuel as nat,
            ).1 =~= d_in + first.diags + total.1,
            template_params_within(template_params_view(params@), base + hi),
        decreases parts.len() - k,
    {
        let seg = parts[k];
        assert(pv[k as int] == (seg.0 as int, seg.1 as int));
        let ghost here = template_params_from(s@, pv, k as int, base as int, fuel as nat);
        let ghost rest = template_params_from(s@, pv, k + 1, base as int, fuel as nat);
        let ghost d0 = diagnostics_view(diags@);
        let ghost v0 = template_params_view(params@);
        let (ts, te) = trim(s, seg.0, seg.1);
        if ts < te {
            let eq = find_top_level_eq(s, ts, te);
            let (vs, ve) = match eq {
                Some(q) => trim(s, q + 1, te),
                None => (ts, te),
            };
            let name = match eq {
                Some(q) => {
                    let (a, b) = trim(s, ts, q);
                    Some(text_of(s, a, b))
                },
                None => None,
            };
            let nodes = nested_inlines(s, vs, ve, base, fuel, diags);
            let p = TemplateParam { span: mk_span(base, seg.0, seg.1), name, value: nodes };
            proof {
                lemma_inlines_within_longer(inlines_view(nodes@), base + ve, base + hi);
                lemma_template_params_view_push(params@, p);
                let inner = nested(s@, vs as int, ve as int, base as int, fuel as nat);
                assert(here.0 == seq![
                    TemplateParamView {
                        span: p.span,
                        name: crate::ast::diagnostic::opt_string_view(p.name),
                        value: inner.nodes,
                    },
                ] + rest.0);
                assert(here.1 == inner.diags + rest.1);
            }
            params.push(p);
            assert(template_params_view(params@) + rest.0 =~= v0 + here.0);
            assert(diagnostics_view(diags@) + rest.1 =~= d0 + here.1);
        } else {
            assert(here == rest);
        }
        k = k + 1;
    }
    let kind = if is_fn {
        TemplateNameKind::ParserFunction
    } else {
        TemplateNameKind::Template
    };
    let n = InlineNode {
        span: mk_span(base, i, end),
        kind: InlineKind::Template {
            node: TemplateInvocation { name: TemplateName { raw, kind }, params },
        },
    };
    Some((n, end))
}

fn try_emphasis_with(
    s: &[u8],
    i: usize,
    hi: usize,
    base: usize,
    fuel: usize,
    delim: &[u8],
    diags: &mut Vec<Diagnostic>,
) -> (r: Option<(usize, Vec<InlineNode>)>)
    requires
        i < hi <= s.len(),
        base + s.len() <= usize::MAX,
    ensures
        match r {
            Some((c, v)) => {
                &&& emphasis_with(s@, i as int, hi as int, base as int, fuel as nat, delim@)
                    matches Some((sc, p))
                &&& sc == c
                &&& p.nodes =~= inlines_view(v@)
                &&& diags_grow(old(diags)@, final(diags)@, p.diags)
                &&& i + delim@.len() <= c
                &&& c + delim@.len() <= hi
                &&& inlines_within(inlines_view(v@), base + hi)
            },
            None => emphasis_with(s@, i as int, hi as int, base as int, fuel as nat, delim@)
                is None && final(diags)@ == old(diags)@,
        },
    decreases fuel, 1int, 0int,
{
    if !starts_with(s, i, hi, delim) {
        return None;
    }
    match find(s, i + delim.len(), hi, delim) {
        Some(c) => {
            let v = nested_inlines(s, i + delim.len(), c, base, fuel, diags);
            proof {
                lemma_inlines_within_longer(inlines_view(v@), base + c, base + hi);
            }
            Some((c, v))
        },
        None => None,
    }
}

fn try_parse_emphasis(
    s: &[u8],
    i: usize,
    hi: usize,
    base: usize,
    fuel: usize,
    diags: &mut Vec<Diagnostic>,
) -> (r: Option<(InlineNode, usize)>)
    requires
        i < hi <= s.len(),
        base + s.len() <= usize::MAX,
    ensures
        attempt_ok(
            r,
            emphasis_at(s@, i as int, hi as int, base as int, fuel as nat),
            old(diags)@,
            final(diags)@,
            i as int,
            hi as int,
            base + hi,
        ),
    decreases fuel, 2int, 0int,
{
    proof {
        lemma_delimiter_lengths();
    }
    let d5 = "'''''".as_bytes();
    let d3 = "'''".as_bytes();
    let d2 = "''".as_bytes();
    if let Some((c, content)) = try_emphasis_with(s, i, hi, base, fuel, d5, diags) {
        let next = c + d5.len();
        let n = InlineNode {
            span: mk_span(base, i, next),
            kind: InlineKind::BoldItalic { content },
        };
        return Some((n, next));
    }
    if let Some((c, content)) = try_emphasis_with(s, i, hi, base, fuel, d3, diags) {
        let next = c + d3.len();
        let n = InlineNode { span: mk_span(base, i, next), kind: InlineKind::Bold { content } };
        return Some((n, next));
    }
    if let Some((c, content)) = try_emphasis_with(s, i, hi, base, fuel, d2, diags) {
        let next = c + d2.len();
        let n = InlineNode { span: mk_span(base, i, next), kind: InlineKind::Italic { content } };
        return Some((n, next));
    }
    None
}


/// Parses inline content.
///
/// `slice` is the text to parse and `base_abs` its offset in `full_src`, the
/// text that spans are taken against: a node that stands at the positions
/// `[a, b)` of `slice` gets the span `[base_abs + a, base_abs + b)`.
/// Diagnostics are appended to `diagnostics`.
pub fn parse_inlines(
    full_src: &str,
    base_abs: usize,
    slice: &str,
    diagnostics: &mut Vec<Diagnostic>,
) -> (out: Vec<InlineNode>)
    requires
        base_abs + slice.spec_bytes().len() <= usize::MAX,
    ensures
        inlines_view(out@) =~= inlines(
            slice.spec_bytes(),
            0,
            slice.spec_bytes().len() as int,
            base_abs as int,
            MAX_INLINE_DEPTH as nat,
        ).nodes,
        diags_grow(
            old(diagnostics)@,
            final(diagnostics)@,
            inlines(
                slice.spec_bytes(),
                0,
                slice.spec_bytes().len() as int,
                base_abs as int,
                MAX_INLINE_DEPTH as nat,
            ).diags,
        ),
        inlines_within(inlines_view(out@), base_abs + slice.spec_bytes().len()),
        base_abs + slice.spec_bytes().len() <= full_src.spec_bytes().len() ==> inlines_within(
            inlines_view(out@),
            full_src.spec_bytes().len() as int,
        ),
{
    let b = slice.as_bytes();
    let out = parse_inlines_in(b, 0, b.len(), base_abs, MAX_INLINE_DEPTH, diagnostics);
    proof {
        if base_abs + b@.len() <= full_src.spec_bytes().len() {
            lemma_inlines_within_longer(
                inlines_view(out@),
                base_abs + b@.len(),
                full_src.spec_bytes().len() as int,
            );
        }
    }
    out
}

} // verus!
