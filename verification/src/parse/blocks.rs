//! The block constructs that one line decides: category tags, `<references
//! />`, magic words, horizontal rules, headings and the redirect directive;
//! and the two kinds of code block.

use crate::ast::blocks::{CategoryTag, CategoryTagView, Redirect, RedirectView, ReferencesNode};
use crate::ast::bounds::attrs_within;
use crate::ast::diagnostic::opt_string_view;
use crate::ast::nodes::{attrs_view, HtmlAttr, HtmlAttrView};
use crate::parse::attrs::{attrs_from, parse_attrs};
use crate::parse::inline::{lit, mk_span, span_at, trim, trim_range};
use crate::parse::util::{cr_end, strip_cr_end, LineRange};
use crate::text::{
    byte_at, ends_with, ends_with_ci, ends_with_pat, ends_with_pat_ci, eq_pat, equals_pat, find,
    find_byte, first_byte, first_match, is_blank, matches_at, matches_at_ci, skip_alpha,
    skip_alpha_run, skip_byte_run, skip_byte_run_back, skip_run, skip_run_back, skip_ws,
    skip_ws_back, starts_with, starts_with_ci,
    text, text_of, trim_end, trim_start, blank, EQ, GT, HASH, LT, PIPE, SLASH, SPACE, TAB,
};
use vstd::prelude::*;
use vstd::string::*;
use vstd::utf8::encode_utf8;

verus! {

/// The line is a range of a text of `len` bytes.
pub open spec fn line_ok(line: LineRange, len: int) -> bool {
    line.start <= line.end && line.end <= line.end_with_newline && line.end_with_newline <= len
}

/// The line without its white space at both ends (a trailing carriage return
/// is white space).
pub open spec fn line_trimmed(s: Seq<u8>, line: LineRange) -> (int, int) {
    trim_range(s, line.start as int, cr_end(s, line.start as int, line.end as int))
}

pub open spec fn line_span(line: LineRange) -> crate::ast::span::Span {
    span_at(0, line.start as int, line.end as int)
}

/// The line holds white space only.
pub open spec fn line_blank(s: Seq<u8>, line: LineRange) -> bool {
    is_blank(s, line.start as int, cr_end(s, line.start as int, line.end as int))
}

pub fn is_line_blank(s: &[u8], line: LineRange) -> (r: bool)
    requires
        line_ok(line, s@.len() as int),
    ensures
        r == line_blank(s@, line),
{
    let te = strip_cr_end(s, line.start, line.end);
    blank(s, line.start, te)
}

fn trimmed_line(s: &[u8], line: LineRange) -> (r: (usize, usize))
    requires
        line_ok(line, s@.len() as int),
    ensures
        r.0 == line_trimmed(s@, line).0,
        r.1 == line_trimmed(s@, line).1,
        line.start <= r.0 <= r.1 <= line.end,
{
    let te = strip_cr_end(s, line.start, line.end);
    trim(s, line.start, te)
}

/// The category tag that the line is: `[[Category:Name]]` or
/// `[[Category:Name|sort key]]`, the word in any letter case.
pub open spec fn category_at(s: Seq<u8>, line: LineRange) -> Option<CategoryTagView> {
    let (a, b) = line_trimmed(s, line);
    let it = trim_start(s, a + 2, b - 2);
    if b - a >= 4 && matches_at(s, a, b, lit("[[")) && ends_with_pat(s, a, b, lit("]]"))
        && matches_at_ci(s, it, b - 2, lit("category:")) {
        let after = it + lit("category:").len();
        let bar = first_byte(s, after, b - 2, PIPE);
        let name = match bar {
            Some(p) => trim_range(s, after, p),
            None => trim_range(s, after, b - 2),
        };
        let sort = match bar {
            Some(p) => trim_range(s, p + 1, b - 2),
            None => (b - 2, b - 2),
        };
        Some(
            CategoryTagView {
                span: line_span(line),
                name: text(s, name.0, name.1),
                sort_key: if sort.0 < sort.1 {
                    Some(text(s, sort.0, sort.1))
                } else {
                    None
                },
            },
        )
    } else {
        None
    }
}

pub fn try_parse_category(s: &[u8], line: LineRange) -> (r: Option<CategoryTag>)
    requires
        line_ok(line, s@.len() as int),
    ensures
        match r {
            Some(c) => category_at(s@, line) == Some(c@),
            None => category_at(s@, line) is None,
        },
{
    let (a, b) = trimmed_line(s, line);
    if b - a < 4 || !starts_with(s, a, b, "[[".as_bytes()) || !ends_with(s, a, b, "]]".as_bytes()) {
        return None;
    }
    let it = skip_ws(s, a + 2, b - 2);
    let word = "category:".as_bytes();
    if !starts_with_ci(s, it, b - 2, word) {
        return None;
    }
    let after = it + word.len();
    let bar = find_byte(s, after, b - 2, PIPE);
    let (n0, n1) = match bar {
        Some(p) => trim(s, after, p),
        None => trim(s, after, b - 2),
    };
    let (k0, k1) = match bar {
        Some(p) => trim(s, p + 1, b - 2),
        None => (b - 2, b - 2),
    };
    let sort_key = if k0 < k1 {
        Some(text_of(s, k0, k1))
    } else {
        None
    };
    Some(CategoryTag { span: mk_span(0, line.start, line.end), name: text_of(s, n0, n1), sort_key })
}

/// The attributes of the `<references ... />` that the line is, the tag in
/// any letter case: the line starts with `<references` and ends with `/>` or
/// `></references>`.
pub open spec fn references_at(s: Seq<u8>, line: LineRange) -> Option<Seq<HtmlAttrView>> {
    let (a, b) = line_trimmed(s, line);
    if matches_at_ci(s, a, b, lit("<references")) && (ends_with_pat_ci(s, a, b, lit("/>"))
        || ends_with_pat_ci(s, a, b, lit("></references>"))) {
        match first_byte(s, a, b, GT) {
            Some(e) => {
                let from = trim_start(s, skip_alpha(s, skip_run(s, a, e, LT), e), e);
                let to = if from < e && byte_at(s, e - 1, e, SLASH) {
                    e - 1
                } else {
                    e
                };
                Some(attrs_from(s, from, to))
            },
            None => Some(Seq::empty()),
        }
    } else {
        None
    }
}

pub fn try_parse_references(s: &[u8], line: LineRange) -> (r: Option<ReferencesNode>)
    requires
        line_ok(line, s@.len() as int),
    ensures
        match r {
            Some(n) => references_at(s@, line) == Some(attrs_view(n.attrs@)) && (forall|len: int|
                attrs_within(attrs_view(n.attrs@), len)),
            None => references_at(s@, line) is None,
        },
{
    let (a, b) = trimmed_line(s, line);
    if !starts_with_ci(s, a, b, "<references".as_bytes()) {
        return None;
    }
    if !ends_with_ci(s, a, b, "/>".as_bytes()) && !ends_with_ci(
        s,
        a,
        b,
        "></references>".as_bytes(),
    ) {
        return None;
    }
    match find_byte(s, a, b, GT) {
        Some(e) => {
            let a1 = skip_byte_run(s, a, e, LT);
            let a2 = skip_alpha_run(s, a1, e);
            let from = skip_ws(s, a2, e);
            let to = if from < e && s[e - 1] == SLASH {
                e - 1
            } else {
                e
            };
            Some(ReferencesNode { attrs: parse_attrs(s, from, to) })
        },
        None => {
            let attrs: Vec<HtmlAttr> = Vec::new();
            assert(attrs_view(attrs@) =~= Seq::empty());
            Some(ReferencesNode { attrs })
        },
    }
}

/// The magic word that the line is: more than four bytes that start and end
/// with `__`.
pub open spec fn magic_word_at(s: Seq<u8>, line: LineRange) -> Option<Seq<char>> {
    let (a, b) = line_trimmed(s, line);
    if b - a > 4 && matches_at(s, a, b, lit("__")) && ends_with_pat(s, a, b, lit("__")) {
        Some(text(s, a, b))
    } else {
        None
    }
}

pub fn try_parse_magic_word(s: &[u8], line: LineRange) -> (r: Option<String>)
    requires
        line_ok(line, s@.len() as int),
    ensures
        opt_string_view(r) == magic_word_at(s@, line),
{
    let (a, b) = trimmed_line(s, line);
    if b - a > 4 && starts_with(s, a, b, "__".as_bytes()) && ends_with(s, a, b, "__".as_bytes()) {
        Some(text_of(s, a, b))
    } else {
        None
    }
}

/// The line is `----`.
pub open spec fn rule_at(s: Seq<u8>, line: LineRange) -> bool {
    equals_pat(s, line_trimmed(s, line).0, line_trimmed(s, line).1, lit("----"))
}

pub fn is_rule(s: &[u8], line: LineRange) -> (r: bool)
    requires
        line_ok(line, s@.len() as int),
    ensures
        r == rule_at(s@, line),
{
    let (a, b) = trimmed_line(s, line);
    eq_pat(s, a, b, "----".as_bytes())
}

/// The first position at or after `lo` that holds neither a space nor a tab.
pub open spec fn skip_blanks(s: Seq<u8>, lo: int, hi: int) -> int
    decreases hi - lo,
{
    if 0 <= lo < hi <= s.len() && (s[lo] == SPACE || s[lo] == TAB) {
        skip_blanks(s, lo + 1, hi)
    } else {
        lo
    }
}

pub fn skip_space_tab(s: &[u8], lo: usize, hi: usize) -> (p: usize)
    requires
        lo <= hi <= s.len(),
    ensures
        p == skip_blanks(s@, lo as int, hi as int),
        lo <= p <= hi,
{
    let mut p: usize = lo;
    while p < hi && (s[p] == SPACE || s[p] == TAB)
        invariant
            lo <= p <= hi <= s.len(),
            skip_blanks(s@, p as int, hi as int) == skip_blanks(s@, lo as int, hi as int),
        decreases hi - p,
    {
        p = p + 1;
    }
    p
}

/// The heading that the line is: its level and the range of its title.
///
/// After leading spaces and tabs the line starts with a run of one to six
/// `=`, and, trailing white space aside, ends with a run of as many, neither
/// more nor fewer; the title is what lies between, without the white space
/// at its ends.
pub open spec fn heading_at(s: Seq<u8>, line: LineRange) -> Option<(u8, int, int)> {
    let off = skip_blanks(s, line.start as int, line.end as int);
    let n = skip_run(s, off, line.end as int, EQ) - off;
    let te = trim_end(s, off, line.end as int);
    if 1 <= n <= 6 && te - off >= 2 * n && te - skip_run_back(s, off + n, te, EQ) == n {
        Some((n as u8, trim_range(s, off + n, te - n).0, trim_range(s, off + n, te - n).1))
    } else {
        None
    }
}

pub fn try_parse_heading(s: &[u8], line: LineRange) -> (r: Option<(u8, usize, usize)>)
    requires
        line_ok(line, s@.len() as int),
    ensures
        match r {
            Some((level, a, b)) => heading_at(s@, line) == Some((level, a as int, b as int))
                && line.start <= a <= b <= line.end && 1 <= level <= 6,
            None => heading_at(s@, line) is None,
        },
{
    let off = skip_space_tab(s, line.start, line.end);
    let n = skip_byte_run(s, off, line.end, EQ) - off;
    if n == 0 || n > 6 {
        return None;
    }
    let te = skip_ws_back(s, off, line.end);
    if te - off < 2 * n {
        return None;
    }
    if te - skip_byte_run_back(s, off + n, te, EQ) != n {
        return None;
    }
    let (a, b) = trim(s, off + n, te - n);
    Some((n as u8, a, b))
}

/// The redirect that the line is, if it starts with `#REDIRECT` in any
/// letter case: the target and anchor of the first `[[...]]` on the line, or
/// an empty target over the whole line where there is none.
pub open spec fn redirect_at(s: Seq<u8>, line: LineRange) -> Option<RedirectView> {
    let te = cr_end(s, line.start as int, line.end as int);
    let t0 = trim_start(s, line.start as int, te);
    if matches_at_ci(s, t0, te, lit("#REDIRECT")) {
        let whole = RedirectView { span: line_span(line), target: Seq::empty(), anchor: None };
        match first_match(s, t0, te, lit("[[")) {
            Some(open) => match first_match(s, open + lit("[[").len(), te, lit("]]")) {
                Some(close) => {
                    let inner = trim_range(s, open + lit("[[").len(), close);
                    Some(
                        RedirectView {
                            span: span_at(0, open, close + lit("]]").len()),
                            target: match first_byte(s, inner.0, inner.1, HASH) {
                                Some(h) => text(s, inner.0, h),
                                None => text(s, inner.0, inner.1),
                            },
                            anchor: match first_byte(s, inner.0, inner.1, HASH) {
                                Some(h) => Some(text(s, h + 1, inner.1)),
                                None => None,
                            },
                        },
                    )
                },
                None => Some(whole),
            },
            None => Some(whole),
        }
    } else {
        None
    }
}

pub fn try_parse_redirect(s: &[u8], line: LineRange) -> (r: Option<Redirect>)
    requires
        line_ok(line, s@.len() as int),
    ensures
        match r {
            Some(x) => redirect_at(s@, line) == Some(x@) && x.span.within(s@.len() as int),
            None => redirect_at(s@, line) is None,
        },
{
    let te = strip_cr_end(s, line.start, line.end);
    let t0 = skip_ws(s, line.start, te);
    if !starts_with_ci(s, t0, te, "#REDIRECT".as_bytes()) {
        return None;
    }
    let open_pat = "[[".as_bytes();
    let close_pat = "]]".as_bytes();
    if let Some(open) = find(s, t0, te, open_pat) {
        if let Some(close) = find(s, open + open_pat.len(), te, close_pat) {
            let (a, b) = trim(s, open + open_pat.len(), close);
            let hash = find_byte(s, a, b, HASH);
            let target = match hash {
                Some(h) => text_of(s, a, h),
                None => text_of(s, a, b),
            };
            let anchor = match hash {
                Some(h) => Some(text_of(s, h + 1, b)),
                None => None,
            };
            return Some(
                Redirect { span: mk_span(0, open, close + close_pat.len()), target, anchor },
            );
        }
    }
    Some(Redirect { span: mk_span(0, line.start, line.end), target: String::new(), anchor: None })
}

/// The line starts a list item: after leading white space stands `*`, `#`,
/// `;` or `:`.
pub open spec fn list_line(s: Seq<u8>, line: LineRange) -> bool {
    let te = cr_end(s, line.start as int, line.end as int);
    let p = trim_start(s, line.start as int, te);
    p < te && is_marker(s[p])
}

pub open spec fn is_marker(b: u8) -> bool {
    b == 42 || b == 35 || b == 59 || b == 58
}

pub fn marker(b: u8) -> (r: bool)
    ensures
        r == is_marker(b),
{
    b == 42 || b == 35 || b == 59 || b == 58
}

pub fn is_list_line(s: &[u8], line: LineRange) -> (r: bool)
    requires
        line_ok(line, s@.len() as int),
    ensures
        r == list_line(s@, line),
{
    let te = strip_cr_end(s, line.start, line.end);
    let p = skip_ws(s, line.start, te);
    p < te && marker(s[p])
}

/// The line starts a table: after leading white space stands `{|`.
pub open spec fn table_start(s: Seq<u8>, line: LineRange) -> bool {
    let te = cr_end(s, line.start as int, line.end as int);
    matches_at(s, trim_start(s, line.start as int, te), te, lit("{|"))
}

pub fn is_table_start(s: &[u8], line: LineRange) -> (r: bool)
    requires
        line_ok(line, s@.len() as int),
    ensures
        r == table_start(s@, line),
{
    let te = strip_cr_end(s, line.start, line.end);
    let p = skip_ws(s, line.start, te);
    starts_with(s, p, te, "{|".as_bytes())
}

/// The line is a block or a category tag by itself: a category tag,
/// `<references />`, a magic word, a horizontal rule or a heading.
pub open spec fn single_start(s: Seq<u8>, line: LineRange) -> bool {
    ||| category_at(s, line) is Some
    ||| references_at(s, line) is Some
    ||| magic_word_at(s, line) is Some
    ||| rule_at(s, line)
    ||| heading_at(s, line) is Some
}

pub fn is_single_start(s: &[u8], line: LineRange) -> (r: bool)
    requires
        line_ok(line, s@.len() as int),
    ensures
        r == single_start(s@, line),
{
    if try_parse_category(s, line).is_some() {
        return true;
    }
    if try_parse_references(s, line).is_some() {
        return true;
    }
    if try_parse_magic_word(s, line).is_some() {
        return true;
    }
    if is_rule(s, line) {
        return true;
    }
    try_parse_heading(s, line).is_some()
}

} // verus!
