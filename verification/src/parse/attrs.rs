//! HTML-like attribute lists: `name`, `name=value`, `name="value"`.

use crate::ast::bounds::attrs_within;
use crate::ast::nodes::{attrs_view, HtmlAttr, HtmlAttrView};
use crate::text::{
    byte_at, find_byte, first_byte, in_range, lemma_trim_start_bounds, skip_ws, text, text_of,
    trim_start, ws_at, ws_len_at, DQUOTE, EQ, QUOTE,
};
use vstd::prelude::*;
use vstd::string::*;

verus! {

/// The end of the attribute name that starts at `lo`: the first position
/// where white space or `=` stands.
pub open spec fn name_end(s: Seq<u8>, lo: int, hi: int) -> int
    decreases hi - lo,
{
    if !(0 <= lo < hi <= s.len()) || ws_len_at(s, lo, hi) > 0 || s[lo] == EQ {
        lo
    } else {
        name_end(s, lo + 1, hi)
    }
}

/// The end of the unquoted value that starts at `lo`: the first position
/// where white space stands.
pub open spec fn token_end(s: Seq<u8>, lo: int, hi: int) -> int
    decreases hi - lo,
{
    if !(0 <= lo < hi <= s.len()) || ws_len_at(s, lo, hi) > 0 {
        lo
    } else {
        token_end(s, lo + 1, hi)
    }
}

pub proof fn lemma_name_end_bounds(s: Seq<u8>, lo: int, hi: int)
    requires
        in_range(s, lo, hi),
    ensures
        lo <= name_end(s, lo, hi) <= hi,
    decreases hi - lo,
{
    if !(0 <= lo < hi <= s.len()) || ws_len_at(s, lo, hi) > 0 || s[lo] == EQ {
    } else {
        lemma_name_end_bounds(s, lo + 1, hi);
    }
}

pub proof fn lemma_token_end_bounds(s: Seq<u8>, lo: int, hi: int)
    requires
        in_range(s, lo, hi),
    ensures
        lo <= token_end(s, lo, hi) <= hi,
    decreases hi - lo,
{
    if !(0 <= lo < hi <= s.len()) || ws_len_at(s, lo, hi) > 0 {
    } else {
        lemma_token_end_bounds(s, lo + 1, hi);
    }
}

pub open spec fn attr(name: Seq<char>, value: Option<Seq<char>>) -> HtmlAttrView {
    HtmlAttrView { name, value, span: None }
}

/// The attribute whose name starts at `p`, and the position after it.
pub open spec fn attr_at(s: Seq<u8>, p: int, hi: int) -> (HtmlAttrView, int) {
    let ne = name_end(s, p, hi);
    let name = text(s, p, ne);
    let after_name = trim_start(s, ne, hi);
    if byte_at(s, after_name, hi, EQ) {
        let after_eq = trim_start(s, after_name + 1, hi);
        if after_eq >= hi {
            (attr(name, None), after_eq)
        } else if s[after_eq] == DQUOTE || s[after_eq] == QUOTE {
            match first_byte(s, after_eq + 1, hi, s[after_eq]) {
                Some(e) => (attr(name, Some(text(s, after_eq + 1, e))), e + 1),
                None => (attr(name, Some(text(s, after_eq + 1, hi))), hi),
            }
        } else {
            let e = token_end(s, after_eq, hi);
            (attr(name, Some(text(s, after_eq, e))), e)
        }
    } else {
        (attr(name, None), after_name)
    }
}

pub proof fn lemma_attr_at_bounds(s: Seq<u8>, p: int, hi: int)
    requires
        in_range(s, p, hi),
    ensures
        name_end(s, p, hi) <= attr_at(s, p, hi).1 <= hi,
{
    lemma_name_end_bounds(s, p, hi);
    let ne = name_end(s, p, hi);
    lemma_trim_start_bounds(s, ne, hi);
    let after_name = trim_start(s, ne, hi);
    if byte_at(s, after_name, hi, EQ) {
        lemma_trim_start_bounds(s, after_name + 1, hi);
        let after_eq = trim_start(s, after_name + 1, hi);
        if after_eq < hi {
            lemma_first_byte_bounds(s, after_eq + 1, hi, s[after_eq]);
            lemma_token_end_bounds(s, after_eq, hi);
        }
    }
}

pub proof fn lemma_first_byte_bounds(s: Seq<u8>, lo: int, hi: int, b: u8)
    requires
        in_range(s, lo, hi),
    ensures
        first_byte(s, lo, hi, b) matches Some(p) ==> lo <= p < hi && s[p] == b,
    decreases hi - lo,
{
    if lo < hi && s[lo] != b {
        lemma_first_byte_bounds(s, lo + 1, hi, b);
    }
}

/// The attributes of `[pos, hi)`: names separated by white space, each with
/// an optional `=` and value. Reading stops at the end, or at an `=` that no
/// name precedes.
pub open spec fn attrs_from(s: Seq<u8>, pos: int, hi: int) -> Seq<HtmlAttrView>
    decreases hi - pos,
{
    let p = trim_start(s, pos, hi);
    if !in_range(s, pos, hi) || p >= hi || name_end(s, p, hi) == p {
        Seq::empty()
    } else {
        proof {
            lemma_trim_start_bounds(s, pos, hi);
            lemma_name_end_bounds(s, p, hi);
            lemma_attr_at_bounds(s, p, hi);
        }
        seq![attr_at(s, p, hi).0] + attrs_from(s, attr_at(s, p, hi).1, hi)
    }
}

fn scan_name(s: &[u8], lo: usize, hi: usize) -> (e: usize)
    requires
        lo <= hi <= s.len(),
    ensures
        e == name_end(s@, lo as int, hi as int),
        lo <= e <= hi,
{
    let mut e: usize = lo;
    while e < hi && ws_at(s, e, hi) == 0 && s[e] != EQ
        invariant
            lo <= e <= hi <= s.len(),
            name_end(s@, e as int, hi as int) == name_end(s@, lo as int, hi as int),
        decreases hi - e,
    {
        e = e + 1;
    }
    e
}

pub fn scan_token(s: &[u8], lo: usize, hi: usize) -> (e: usize)
    requires
        lo <= hi <= s.len(),
    ensures
        e == token_end(s@, lo as int, hi as int),
        lo <= e <= hi,
{
    let mut e: usize = lo;
    while e < hi && ws_at(s, e, hi) == 0
        invariant
            lo <= e <= hi <= s.len(),
            token_end(s@, e as int, hi as int) == token_end(s@, lo as int, hi as int),
        decreases hi - e,
    {
        e = e + 1;
    }
    e
}

fn parse_attr(s: &[u8], p: usize, hi: usize) -> (r: (HtmlAttr, usize))
    requires
        p <= hi <= s.len(),
    ensures
        r.0@ == attr_at(s@, p as int, hi as int).0,
        r.1 == attr_at(s@, p as int, hi as int).1,
        name_end(s@, p as int, hi as int) <= r.1 <= hi,
        r.0.span is None,
{
    proof {
        lemma_attr_at_bounds(s@, p as int, hi as int);
    }
    let ne = scan_name(s, p, hi);
    let name = text_of(s, p, ne);
    let after_name = skip_ws(s, ne, hi);
    if after_name < hi && s[after_name] == EQ {
        let after_eq = skip_ws(s, after_name + 1, hi);
        if after_eq >= hi {
            (HtmlAttr { name, value: None, span: None }, after_eq)
        } else if s[after_eq] == DQUOTE || s[after_eq] == QUOTE {
            match find_byte(s, after_eq + 1, hi, s[after_eq]) {
                Some(e) => (
                    HtmlAttr { name, value: Some(text_of(s, after_eq + 1, e)), span: None },
                    e + 1,
                ),
                None => (HtmlAttr { name, value: Some(text_of(s, after_eq + 1, hi)), span: None }, hi),
            }
        } else {
            let e = scan_token(s, after_eq, hi);
            (HtmlAttr { name, value: Some(text_of(s, after_eq, e)), span: None }, e)
        }
    } else {
        (HtmlAttr { name, value: None, span: None }, after_name)
    }
}

/// Reads the attribute list that `[lo, hi)` holds.
pub fn parse_attrs(s: &[u8], lo: usize, hi: usize) -> (out: Vec<HtmlAttr>)
    requires
        lo <= hi <= s.len(),
    ensures
        attrs_view(out@) == attrs_from(s@, lo as int, hi as int),
        forall|len: int| attrs_within(attrs_view(out@), len),
{
    let mut out: Vec<HtmlAttr> = Vec::new();
    let mut pos: usize = lo;
    loop
        invariant
            lo <= pos <= hi <= s.len(),
            attrs_view(out@) + attrs_from(s@, pos as int, hi as int) =~= attrs_from(
                s@,
                lo as int,
                hi as int,
            ),
            forall|k: int| 0 <= k < out@.len() ==> (#[trigger] out@[k]).span is None,
        ensures
            attrs_view(out@) =~= attrs_from(s@, lo as int, hi as int),
            forall|k: int| 0 <= k < out@.len() ==> (#[trigger] out@[k]).span is None,
        decreases hi - pos,
    {
        let p = skip_ws(s, pos, hi);
        if p >= hi {
            break ;
        }
        let ne = scan_name(s, p, hi);
        if ne == p {
            break ;
        }
        let (a, next) = parse_attr(s, p, hi);
        let ghost before = attrs_view(out@);
        out.push(a);
        assert(attrs_view(out@) =~= before + seq![a@]);
        pos = next;
    }
    assert forall|len: int| attrs_within(attrs_view(out@), len) by {
        assert forall|i: int| 0 <= i < attrs_view(out@).len() implies match (
        #[trigger] attrs_view(out@)[i]).span {
            Some(sp) => sp.within(len),
            None => true,
        } by {
            assert(out@[i].span is None);
        }
    }
    out
}

/// Reads an attribute list such as `style="text-align:center;" rowspan=2`.
pub fn parse_html_attrs(s: &str) -> (out: Vec<HtmlAttr>)
    ensures
        attrs_view(out@) == attrs_from(s.spec_bytes(), 0, s.spec_bytes().len() as int),
{
    let b = s.as_bytes();
    parse_attrs(b, 0, b.len())
}

} // verus!
