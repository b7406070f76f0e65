//! Code blocks: `<pre>` and `<syntaxhighlight>` with their closing tags, and
//! runs of lines that begin with a space.

use crate::ast::blocks::{BlockKind, BlockKindView, BlockNode, BlockNodeView, CodeBlock, CodeBlockKind};
use crate::ast::blocks::block_view;
use crate::ast::bounds::block_within;
use crate::ast::diagnostic::{opt_string_view, Diagnostic, DiagnosticView};
use crate::ast::nodes::{attrs_view, HtmlAttr, HtmlAttrView};
use crate::parse::blocks::{line_blank, line_ok, is_line_blank};
use crate::parse::inline::{
    diags_grow, lit, mk_span, push_warning, span_at, tag_attr_list, tag_attrs, warning,
};
use crate::parse::util::{cr_end, lines_wf, strip_cr_end, LineRange};
use crate::text::{
    byte_at, eq_ci, equals_ci, find_byte, find_ci, first_byte, first_match_ci, decoded,
    matches_at_ci, push_range, skip_ws, starts_with_ci, string_from_bytes, text, text_of,
    trim_start, GT, NL, SPACE,
};
use vstd::prelude::*;
use vstd::string::*;
use vstd::utf8::encode_utf8;

verus! {

/// What a code block handler finds: the block, the index of the next line to
/// read, what is left of the line that the block ends on, and the
/// diagnostics.
pub struct CodeStep {
    pub node: BlockNodeView,
    pub next: int,
    pub tail: (int, int),
    pub diags: Seq<DiagnosticView>,
}

/// The attribute's name is `name`, letter case aside.
pub open spec fn attr_is(a: HtmlAttrView, name: Seq<u8>) -> bool {
    equals_ci(encode_utf8(a.name), 0, encode_utf8(a.name).len() as int, name)
}

/// The value of the first attribute from the `k`-th on that is named `name`.
pub open spec fn attr_value(attrs: Seq<HtmlAttrView>, name: Seq<u8>, k: int) -> Option<Seq<char>>
    decreases attrs.len() - k,
{
    if k < 0 || k >= attrs.len() {
        None
    } else if attr_is(attrs[k], name) {
        attrs[k].value
    } else {
        attr_value(attrs, name, k + 1)
    }
}

/// Looks an attribute up by name, letter case aside, and hands out a copy of
/// its value.
pub fn find_attr_value(attrs: &Vec<HtmlAttr>, name: &[u8]) -> (r: Option<String>)
    ensures
        opt_string_view(r) == attr_value(attrs_view(attrs@), name@, 0),
{
    let mut k: usize = 0;
    while k < attrs.len()
        invariant
            k <= attrs.len(),
            attr_value(attrs_view(attrs@), name@, k as int) == attr_value(
                attrs_view(attrs@),
                name@,
                0,
            ),
        decreases attrs.len() - k,
    {
        let a = &attrs[k];
        assert(attrs_view(attrs@)[k as int] == a@);
        let nb = a.name.as_str().as_bytes();
        if eq_ci(nb, 0, nb.len(), name) {
            return match &a.value {
                Some(v) => Some(v.clone()),
                None => None,
            };
        }
        k = k + 1;
    }
    None
}

/// The index of the first line from the `k`-th on that ends at or after
/// `pos`; the last line's where none does.
pub open spec fn line_holding(lines: Seq<LineRange>, k: int, pos: int) -> int
    decreases lines.len() - k,
{
    if k < 0 || k >= lines.len() - 1 || lines[k].end >= pos {
        k
    } else {
        line_holding(lines, k + 1, pos)
    }
}

fn find_line_holding(lines: &[LineRange], from: usize, pos: usize) -> (k: usize)
    requires
        from < lines.len(),
    ensures
        k == line_holding(lines@, from as int, pos as int),
        from <= k < lines.len(),
        k < lines.len() - 1 ==> lines@[k as int].end >= pos,
{
    let mut k: usize = from;
    while k < lines.len() - 1 && lines[k].end < pos
        invariant
            from <= k < lines.len(),
            line_holding(lines@, k as int, pos as int) == line_holding(
                lines@,
                from as int,
                pos as int,
            ),
        decreases lines.len() - k,
    {
        k = k + 1;
    }
    k
}

pub open spec fn close_tag(kind: CodeBlockKind) -> Seq<u8> {
    if kind == CodeBlockKind::SyntaxHighlight {
        lit("</syntaxhighlight>")
    } else {
        lit("</pre>")
    }
}

pub open spec fn unclosed_message(kind: CodeBlockKind) -> Seq<char> {
    if kind == CodeBlockKind::SyntaxHighlight {
        "Unclosed <syntaxhighlight> tag"@
    } else {
        "Unclosed <pre> tag"@
    }
}

pub open spec fn code_node(
    a: int,
    b: int,
    kind: CodeBlockKind,
    lang: Option<Seq<char>>,
    text: Seq<char>,
) -> BlockNodeView {
    BlockNodeView { span: span_at(0, a, b), kind: BlockKindView::CodeBlock { kind, lang, text } }
}

/// The tagged code block whose opening tag starts at `t0` on the `i`-th
/// line.
///
/// The closing tag is looked for, in any letter case, in all that follows the
/// opening tag. The block's text is what stands between the two, as it is.
/// Only `<syntaxhighlight>` has a language: the value of its `lang`
/// attribute. Where no closing tag follows, the block is empty and ends with
/// the line, with a warning. No block where the opening tag has no `>`.
pub open spec fn tagged_code(
    s: Seq<u8>,
    lines: Seq<LineRange>,
    i: int,
    t0: int,
    kind: CodeBlockKind,
) -> Option<CodeStep> {
    match first_byte(s, t0, s.len() as int, GT) {
        None => None,
        Some(oe) => {
            let lang = if kind == CodeBlockKind::SyntaxHighlight {
                attr_value(tag_attrs(s, t0, oe, true), lit("lang"), 0)
            } else {
                None
            };
            match first_match_ci(s, oe + 1, s.len() as int, close_tag(kind)) {
                None => Some(
                    CodeStep {
                        node: code_node(t0, lines[i].end as int, kind, lang, Seq::empty()),
                        next: i + 1,
                        tail: (lines[i].end as int, lines[i].end as int),
                        diags: seq![
                            warning(
                                "wikitext.codeblock.unclosed"@,
                                unclosed_message(kind),
                                span_at(0, t0, oe + 1),
                            ),
                        ],
                    },
                ),
                Some(c) => {
                    let close_end = c + close_tag(kind).len();
                    let k = line_holding(lines, i, close_end);
                    Some(
                        CodeStep {
                            node: code_node(t0, close_end, kind, lang, text(s, oe + 1, c)),
                            next: k + 1,
                            tail: (close_end, lines[k].end as int),
                            diags: Seq::empty(),
                        },
                    )
                },
            }
        },
    }
}

/// The tagged code block that the `i`-th line starts: after leading white
/// space the line starts with `<pre` or `<syntaxhighlight`, in any letter
/// case.
#[verifier::opaque]
pub open spec fn code_block_at(s: Seq<u8>, lines: Seq<LineRange>, i: int) -> Option<CodeStep> {
    let te = cr_end(s, lines[i].start as int, lines[i].end as int);
    let t0 = trim_start(s, lines[i].start as int, te);
    if matches_at_ci(s, t0, te, lit("<pre")) {
        tagged_code(s, lines, i, t0, CodeBlockKind::PreTag)
    } else if matches_at_ci(s, t0, te, lit("<syntaxhighlight")) {
        tagged_code(s, lines, i, t0, CodeBlockKind::SyntaxHighlight)
    } else {
        None
    }
}

/// The line starts a tagged code block: after leading white space it
/// starts with `<pre` or `<syntaxhighlight`, in any letter case, and a `>`
/// follows somewhere in the text.
pub open spec fn code_start(s: Seq<u8>, line: LineRange) -> bool {
    let te = cr_end(s, line.start as int, line.end as int);
    let t0 = trim_start(s, line.start as int, te);
    (matches_at_ci(s, t0, te, lit("<pre")) || matches_at_ci(s, t0, te, lit("<syntaxhighlight")))
        && first_byte(s, t0, s.len() as int, GT) is Some
}

pub fn is_code_start(s: &[u8], line: LineRange) -> (r: bool)
    requires
        line_ok(line, s@.len() as int),
    ensures
        r == code_start(s@, line),
{
    let te = strip_cr_end(s, line.start, line.end);
    let t0 = skip_ws(s, line.start, te);
    (starts_with_ci(s, t0, te, "<pre".as_bytes()) || starts_with_ci(
        s,
        t0,
        te,
        "<syntaxhighlight".as_bytes(),
    )) && find_byte(s, t0, s.len(), GT).is_some()
}

/// A line starts a tagged code block exactly where the handler reads one.
pub proof fn lemma_code_start(s: Seq<u8>, lines: Seq<LineRange>, i: int)
    requires
        0 <= i < lines.len(),
    ensures
        code_start(s, lines[i]) == (code_block_at(s, lines, i) is Some),
{
    reveal(code_block_at);
}

/// What a handler hands back: the block, the next line's index, and what is
/// left of the line that the block ends on.
pub struct BlockStep {
    pub node: BlockNode,
    pub next: usize,
    pub tail: (usize, usize),
}

#[verifier::rlimit(40)]
fn parse_tagged_code_block(
    s: &[u8],
    lines: &[LineRange],
    i: usize,
    t0: usize,
    kind: CodeBlockKind,
    diags: &mut Vec<Diagnostic>,
) -> (r: Option<BlockStep>)
    requires
        lines_wf(lines@, s@.len() as int),
        i < lines.len(),
        lines@[i as int].start <= t0 <= lines@[i as int].end,
        kind != CodeBlockKind::LeadingSpace,
    ensures
        match r {
            Some(st) => {
                &&& tagged_code(s@, lines@, i as int, t0 as int, kind) matches Some(sp)
                &&& sp.node == block_view(st.node)
                &&& sp.next == st.next
                &&& sp.tail == (st.tail.0 as int, st.tail.1 as int)
                &&& diags_grow(old(diags)@, final(diags)@, sp.diags)
                &&& i < st.next <= lines.len()
                &&& st.tail.0 <= st.tail.1 <= s@.len()
                &&& block_within(block_view(st.node), s@.len() as int)
            },
            None => tagged_code(s@, lines@, i as int, t0 as int, kind) is None && final(diags)@
                == old(diags)@,
        },
{
    let line = lines[i];
    let oe = match find_byte(s, t0, s.len(), GT) {
        Some(oe) => oe,
        None => {
            return None;
        },
    };
    let attrs = tag_attr_list(s, t0, oe, true);
    let lang = match kind {
        CodeBlockKind::SyntaxHighlight => find_attr_value(&attrs, "lang".as_bytes()),
        _ => None,
    };
    let close = match kind {
        CodeBlockKind::SyntaxHighlight => "</syntaxhighlight>".as_bytes(),
        _ => "</pre>".as_bytes(),
    };
    match find_ci(s, oe + 1, s.len(), close) {
        None => {
            let message = match kind {
                CodeBlockKind::SyntaxHighlight => "Unclosed <syntaxhighlight> tag",
                _ => "Unclosed <pre> tag",
            };
            push_warning(diags, "wikitext.codeblock.unclosed", message, mk_span(0, t0, oe + 1));
            let node = BlockNode {
                span: mk_span(0, t0, line.end),
                kind: BlockKind::CodeBlock { block: CodeBlock { kind, lang, text: String::new() } },
            };
            Some(BlockStep { node, next: i + 1, tail: (line.end, line.end) })
        },
        Some(c) => {
            let close_end = c + close.len();
            let k = find_line_holding(lines, i, close_end);
            let node = BlockNode {
                span: mk_span(0, t0, close_end),
                kind: BlockKind::CodeBlock {
                    block: CodeBlock { kind, lang, text: text_of(s, oe + 1, c) },
                },
            };
            Some(BlockStep { node, next: k + 1, tail: (close_end, lines[k].end) })
        },
    }
}

/// Reads the tagged code block that the `i`-th line starts, if it starts
/// one.
pub fn try_parse_code_block(
    s: &[u8],
    lines: &[LineRange],
    i: usize,
    diags: &mut Vec<Diagnostic>,
) -> (r: Option<BlockStep>)
    requires
        lines_wf(lines@, s@.len() as int),
        i < lines.len(),
    ensures
        match r {
            Some(st) => {
                &&& code_block_at(s@, lines@, i as int) matches Some(sp)
                &&& sp.node == block_view(st.node)
                &&& sp.next == st.next
                &&& sp.tail == (st.tail.0 as int, st.tail.1 as int)
                &&& diags_grow(old(diags)@, final(diags)@, sp.diags)
                &&& i < st.next <= lines.len()
                &&& st.tail.0 <= st.tail.1 <= s@.len()
                &&& block_within(block_view(st.node), s@.len() as int)
            },
            None => code_block_at(s@, lines@, i as int) is None && final(diags)@ == old(diags)@,
        },
{
    reveal(code_block_at);
    let line = lines[i];
    let te = strip_cr_end(s, line.start, line.end);
    let t0 = skip_ws(s, line.start, te);
    if starts_with_ci(s, t0, te, "<pre".as_bytes()) {
        parse_tagged_code_block(s, lines, i, t0, CodeBlockKind::PreTag, diags)
    } else if starts_with_ci(s, t0, te, "<syntaxhighlight".as_bytes()) {
        parse_tagged_code_block(s, lines, i, t0, CodeBlockKind::SyntaxHighlight, diags)
    } else {
        None
    }
}

/// The line begins with a space.
pub open spec fn space_line(s: Seq<u8>, line: LineRange) -> bool {
    byte_at(s, line.start as int, cr_end(s, line.start as int, line.end as int), SPACE)
}

pub fn is_space_line(s: &[u8], line: LineRange) -> (r: bool)
    requires
        line_ok(line, s@.len() as int),
    ensures
        r == space_line(s@, line),
{
    let te = strip_cr_end(s, line.start, line.end);
    line.start < te && s[line.start] == SPACE
}

/// The index of the first line from the `k`-th on that is not blank; the
/// number of lines where all are.
pub open spec fn next_nonblank(s: Seq<u8>, lines: Seq<LineRange>, k: int) -> int
    decreases lines.len() - k,
{
    if k < 0 || k >= lines.len() || !line_blank(s, lines[k]) {
        k
    } else {
        next_nonblank(s, lines, k + 1)
    }
}

pub fn skip_blank_lines(s: &[u8], lines: &[LineRange], from: usize) -> (k: usize)
    requires
        lines_wf(lines@, s@.len() as int),
        from <= lines.len(),
    ensures
        k == next_nonblank(s@, lines@, from as int),
        from <= k <= lines.len(),
{
    let mut k: usize = from;
    while k < lines.len() && is_line_blank(s, lines[k])
        invariant
            from <= k <= lines.len(),
            lines_wf(lines@, s@.len() as int),
            next_nonblank(s@, lines@, k as int) == next_nonblank(s@, lines@, from as int),
        decreases lines.len() - k,
    {
        k = k + 1;
    }
    k
}

pub open spec fn newlines(n: int) -> Seq<u8> {
    Seq::new(n as nat, |k: int| NL)
}

/// The text of the preformatted block read from the `k`-th line on, where
/// `buf` is what has been gathered and `end` where the last line ended: the
/// text, the end, and the index of the next line.
///
/// A line that begins with a space gives what follows the space, and a
/// newline. Blank lines are kept, as empty lines, where the next line that
/// is not blank begins with a space again.
pub open spec fn leading_space_from(
    s: Seq<u8>,
    lines: Seq<LineRange>,
    k: int,
    buf: Seq<u8>,
    end: int,
) -> (Seq<u8>, int, int)
    decreases lines.len() - k,
{
    if k < 0 || k >= lines.len() {
        (buf, end, k)
    } else if space_line(s, lines[k]) {
        leading_space_from(
            s,
            lines,
            k + 1,
            buf + s.subrange(
                lines[k].start + 1,
                cr_end(s, lines[k].start as int, lines[k].end as int),
            ) + seq![NL],
            lines[k].end as int,
        )
    } else {
        let j = next_nonblank(s, lines, k);
        if k < j < lines.len() && space_line(s, lines[j]) {
            leading_space_from(s, lines, j, buf + newlines(j - k), end)
        } else {
            (buf, end, k)
        }
    }
}

/// The preformatted block that starts on the `i`-th line, and the index of
/// the next line.
#[verifier::opaque]
pub open spec fn leading_space_block(s: Seq<u8>, lines: Seq<LineRange>, i: int) -> (
    BlockNodeView,
    int,
) {
    let r = leading_space_from(s, lines, i, Seq::empty(), lines[i].end as int);
    (
        code_node(
            lines[i].start as int,
            r.1,
            CodeBlockKind::LeadingSpace,
            None,
            decoded(
                if r.0.len() > 0 {
                    r.0.drop_last()
                } else {
                    r.0
                },
            ),
        ),
        r.2,
    )
}

fn push_newlines(buf: &mut Vec<u8>, n: usize)
    ensures
        final(buf)@ == old(buf)@ + newlines(n as int),
{
    let mut k: usize = 0;
    assert(buf@ =~= old(buf)@ + newlines(0));
    while k < n
        invariant
            k <= n,
            buf@ == old(buf)@ + newlines(k as int),
        decreases n - k,
    {
        buf.push(NL);
        assert(buf@ =~= old(buf)@ + newlines(k + 1));
        k = k + 1;
    }
}

/// Reads the preformatted block that starts on the `i`-th line, which begins
/// with a space.
#[verifier::rlimit(40)]
pub fn parse_leading_space_block(s: &[u8], lines: &[LineRange], i: usize) -> (r: (BlockNode, usize))
    requires
        lines_wf(lines@, s@.len() as int),
        i < lines.len(),
        space_line(s@, lines@[i as int]),
    ensures
        block_view(r.0) == leading_space_block(s@, lines@, i as int).0,
        r.1 == leading_space_block(s@, lines@, i as int).1,
        i < r.1 <= lines.len(),
        block_within(block_view(r.0), s@.len() as int),
{
    reveal(leading_space_block);
    let mut buf: Vec<u8> = Vec::new();
    let mut end: usize = lines[i].end;
    let mut k: usize = i;
    let ghost goal = leading_space_from(s@, lines@, i as int, Seq::empty(), lines@[i as int].end as int);
    loop
        invariant
            i <= k <= lines.len(),
            i < lines.len(),
            k == i ==> space_line(s@, lines@[i as int]),
            lines_wf(lines@, s@.len() as int),
            lines@[i as int].start <= end <= s@.len(),
            leading_space_from(s@, lines@, k as int, buf@, end as int) == goal,
        ensures
            i < k <= lines.len(),
            lines@[i as int].start <= end <= s@.len(),
            (buf@, end as int, k as int) == goal,
        decreases lines.len() - k,
    {
        if k >= lines.len() {
            break ;
        }
        let line = lines[k];
        let ghost buf0 = buf@;
        if is_space_line(s, line) {
            let te = strip_cr_end(s, line.start, line.end);
            push_range(&mut buf, s, line.start + 1, te);
            buf.push(NL);
            assert(buf@ =~= buf0 + s@.subrange(line.start + 1, te as int) + seq![NL]);
            end = line.end;
            assert(lines@[i as int].start <= lines@[k as int].start) by {
                crate::parse::util::lemma_lines_wf_sorted(lines@, s@.len() as int);
            }
            k = k + 1;
        } else {
            let j = skip_blank_lines(s, lines, k);
            if k < j && j < lines.len() && is_space_line(s, lines[j]) {
                push_newlines(&mut buf, j - k);
                k = j;
            } else {
                break ;
            }
        }
    }
    if buf.len() > 0 {
        buf.pop();
    }
    let node = BlockNode {
        span: mk_span(0, lines[i].start, end),
        kind: BlockKind::CodeBlock {
            block: CodeBlock {
                kind: CodeBlockKind::LeadingSpace,
                lang: None,
                text: string_from_bytes(buf.as_slice()),
            },
        },
    };
    (node, k)
}

} // verus!
