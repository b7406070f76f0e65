//! Lines of the source, and the nesting-aware scans that the inline and table
//! grammars share.

use crate::text::{
    byte_at, is_pair, matches_at, opt_int, pair_at, skip_ws, starts_with, trim_start, ws_len_at,
    CR, EQ, LBRACE, LBRACKET, NL, RBRACE, RBRACKET,
};
use vstd::string::*;
use vstd::utf8::*;
use vstd::prelude::*;

verus! {

/// The byte range of one line of the source.
///
/// `start..end` is the line without its `\n`; `end_with_newline` is `end`, or
/// `end + 1` where the line ended with `\n`.
#[derive(Debug, Clone, Copy, PartialEq, Eq, Structural)]
pub struct LineRange {
    pub start: usize,
    pub end: usize,
    pub end_with_newline: usize,
}

/// The lines of `s` from `start` on, where `i` is how far the current line
/// has been read.
pub open spec fn lines_from(s: Seq<u8>, start: int, i: int) -> Seq<LineRange>
    decreases s.len() - i,
{
    if i >= s.len() {
        seq![
            LineRange {
                start: start as usize,
                end: s.len() as usize,
                end_with_newline: s.len() as usize,
            },
        ]
    } else if s[i] == NL {
        seq![
            LineRange { start: start as usize, end: i as usize, end_with_newline: (i + 1) as usize },
        ] + lines_from(s, i + 1, i + 1)
    } else {
        lines_from(s, start, i + 1)
    }
}

/// The lines of `s`: one for each `\n`, and one more for what follows the
/// last `\n` (empty where nothing does).
pub open spec fn lines_of(s: Seq<u8>) -> Seq<LineRange> {
    lines_from(s, 0, 0)
}

/// Each line is a range of a text of `len` bytes, the first starts at 0, each
/// starts where the one before ended with its newline, and the last ends at
/// `len`.
pub open spec fn lines_wf(lines: Seq<LineRange>, len: int) -> bool {
    &&& lines.len() > 0
    &&& lines[0].start == 0
    &&& lines[lines.len() - 1].end_with_newline == len
    &&& lines[lines.len() - 1].end == len
    &&& forall|k: int|
        0 <= k < lines.len() ==> {
            &&& (#[trigger] lines[k]).start <= lines[k].end
            &&& lines[k].end <= lines[k].end_with_newline
            &&& lines[k].end_with_newline <= lines[k].end + 1
            &&& lines[k].end_with_newline <= len
        }
    &&& forall|k: int|
        0 <= k < lines.len() - 1 ==> (#[trigger] lines[k]).end_with_newline == lines[k + 1].start
            && lines[k].end_with_newline == lines[k].end + 1
}

/// Lines that lie in a text of `len` bytes, one after the other.
pub open spec fn lines_sorted(lines: Seq<LineRange>, len: int) -> bool {
    &&& forall|k: int|
        0 <= k < lines.len() ==> {
            &&& (#[trigger] lines[k]).start <= lines[k].end
            &&& lines[k].end <= lines[k].end_with_newline
            &&& lines[k].end_with_newline <= len
        }
    &&& forall|j: int, k: int|
        0 <= j < k < lines.len() ==> (#[trigger] lines[j]).end_with_newline <= (
        #[trigger] lines[k]).start
}

proof fn lemma_lines_from_wf(s: Seq<u8>, start: int, i: int)
    requires
        0 <= start <= i <= s.len(),
        s.len() <= usize::MAX,
    ensures
        ({
            let lines = lines_from(s, start, i);
            &&& lines.len() > 0
            &&& lines[0].start == start
            &&& lines[0].end >= i
            &&& lines[lines.len() - 1].end_with_newline == s.len()
            &&& lines[lines.len() - 1].end == s.len()
            &&& forall|k: int|
                0 <= k < lines.len() ==> {
                    &&& (#[trigger] lines[k]).start <= lines[k].end
                    &&& lines[k].end <= lines[k].end_with_newline
                    &&& lines[k].end_with_newline <= lines[k].end + 1
                    &&& lines[k].end_with_newline <= s.len()
                }
            &&& forall|k: int|
                0 <= k < lines.len() - 1 ==> (#[trigger] lines[k]).end_with_newline == lines[k
                    + 1].start && lines[k].end_with_newline == lines[k].end + 1
        }),
    decreases s.len() - i,
{
    if i >= s.len() {
    } else if s[i] == NL {
        lemma_lines_from_wf(s, i + 1, i + 1);
        let rest = lines_from(s, i + 1, i + 1);
        let lines = lines_from(s, start, i);
        assert(lines =~= seq![
            LineRange { start: start as usize, end: i as usize, end_with_newline: (i + 1) as usize },
        ] + rest);
        assert forall|k: int| 0 <= k < lines.len() implies {
            &&& (#[trigger] lines[k]).start <= lines[k].end
            &&& lines[k].end <= lines[k].end_with_newline
            &&& lines[k].end_with_newline <= lines[k].end + 1
            &&& lines[k].end_with_newline <= s.len()
        } by {
            if k > 0 {
                assert(lines[k] == rest[k - 1]);
            }
        }
        assert forall|k: int| 0 <= k < lines.len() - 1 implies (
        #[trigger] lines[k]).end_with_newline == lines[k + 1].start && lines[k].end_with_newline
            == lines[k].end + 1 by {
            if k > 0 {
                assert(lines[k] == rest[k - 1]);
                assert(lines[k + 1] == rest[k]);
            } else {
                assert(lines[1] == rest[0]);
            }
        }
    } else {
        lemma_lines_from_wf(s, start, i + 1);
    }
}

/// The lines of any text are well formed.
pub proof fn lemma_lines_of_wf(s: Seq<u8>)
    requires
        s.len() <= usize::MAX,
    ensures
        lines_wf(lines_of(s), s.len() as int),
{
    lemma_lines_from_wf(s, 0, 0);
}

/// Well-formed lines are sorted.
pub proof fn lemma_lines_wf_sorted(lines: Seq<LineRange>, len: int)
    requires
        lines_wf(lines, len),
    ensures
        lines_sorted(lines, len),
{
    assert forall|j: int, k: int| 0 <= j < k < lines.len() implies (
    #[trigger] lines[j]).end_with_newline <= (#[trigger] lines[k]).start by {
        lemma_lines_step(lines, len, j, k);
    }
}

proof fn lemma_lines_step(lines: Seq<LineRange>, len: int, j: int, k: int)
    requires
        lines_wf(lines, len),
        0 <= j < k < lines.len(),
    ensures
        lines[j].end_with_newline <= lines[k].start,
    decreases k - j,
{
    if j + 1 < k {
        lemma_lines_step(lines, len, j + 1, k);
        assert(lines[j].end_with_newline == lines[j + 1].start);
        assert(lines[j + 1].start <= lines[j + 1].end);
    } else {
        assert(lines[j].end_with_newline == lines[j + 1].start);
    }
}

/// Splits a text into its lines.
#[verifier::rlimit(40)]
pub fn collect_line_ranges(s: &[u8]) -> (out: Vec<LineRange>)
    ensures
        out@ == lines_of(s@),
        lines_wf(out@, s@.len() as int),
{
    let mut out: Vec<LineRange> = Vec::new();
    let mut start: usize = 0;
    let mut i: usize = 0;
    while i < s.len()
        invariant
            start <= i <= s.len(),
            out@ + lines_from(s@, start as int, i as int) =~= lines_of(s@),
        decreases s.len() - i,
    {
        let ghost before = out@;
        let ghost rest = lines_from(s@, start as int, i as int);
        if s[i] == NL {
            let line = LineRange { start, end: i, end_with_newline: i + 1 };
            out.push(line);
            assert(rest == seq![line] + lines_from(s@, i + 1, i + 1));
            assert(out@ + lines_from(s@, i + 1, i + 1) =~= before + rest);
            start = i + 1;
        } else {
            assert(rest == lines_from(s@, start as int, i + 1));
        }
        i = i + 1;
    }
    let ghost before = out@;
    let last = LineRange { start, end: s.len(), end_with_newline: s.len() };
    out.push(last);
    proof {
        assert(lines_from(s@, start as int, i as int) == seq![last]);
        assert(out@ =~= before + seq![last]);
        lemma_lines_of_wf(s@);
    }
    out
}

/// Splits a text into its lines.
pub fn collect_lines(src: &str) -> (out: Vec<LineRange>)
    ensures
        out@ == lines_of(src.spec_bytes()),
        lines_wf(out@, src.spec_bytes().len() as int),
{
    collect_line_ranges(src.as_bytes())
}

/// The end of `[lo, hi)` without one trailing carriage return.
pub open spec fn cr_end(s: Seq<u8>, lo: int, hi: int) -> int {
    if lo < hi && byte_at(s, hi - 1, hi, CR) {
        hi - 1
    } else {
        hi
    }
}

pub fn strip_cr_end(s: &[u8], lo: usize, hi: usize) -> (e: usize)
    requires
        lo <= hi <= s.len(),
    ensures
        e == cr_end(s@, lo as int, hi as int),
        lo <= e <= hi,
{
    if lo < hi && s[hi - 1] == CR {
        hi - 1
    } else {
        hi
    }
}

/// A step over an opening or closing pair of braces or brackets: the
/// position after the pair and the two depths as the pair leaves them. `None`
/// where no such pair stands at `i`.
pub open spec fn nest_step(s: Seq<u8>, i: int, hi: int, tpl: nat, link: nat) -> Option<
    (int, nat, nat),
> {
    if pair_at(s, i, hi, LBRACE, LBRACE) {
        Some((i + 2, tpl + 1, link))
    } else if pair_at(s, i, hi, RBRACE, RBRACE) {
        Some((i + 2, if tpl > 0 { (tpl - 1) as nat } else { 0 }, link))
    } else if pair_at(s, i, hi, LBRACKET, LBRACKET) {
        Some((i + 2, tpl, link + 1))
    } else if pair_at(s, i, hi, RBRACKET, RBRACKET) {
        Some((i + 2, tpl, if link > 0 { (link - 1) as nat } else { 0 }))
    } else {
        None
    }
}

pub fn nest(s: &[u8], i: usize, hi: usize, tpl: usize, link: usize) -> (r: Option<
    (usize, usize, usize),
>)
    requires
        i <= hi <= s.len(),
        tpl <= i,
        link <= i,
    ensures
        match r {
            Some((j, t, l)) => nest_step(s@, i as int, hi as int, tpl as nat, link as nat) == Some(
                (j as int, t as nat, l as nat),
            ) && j == i + 2 && j <= hi && t <= j && l <= j,
            None => nest_step(s@, i as int, hi as int, tpl as nat, link as nat) is None,
        },
{
    if is_pair(s, i, hi, LBRACE, LBRACE) {
        Some((i + 2, tpl + 1, link))
    } else if is_pair(s, i, hi, RBRACE, RBRACE) {
        Some((i + 2, if tpl > 0 { tpl - 1 } else { 0 }, link))
    } else if is_pair(s, i, hi, LBRACKET, LBRACKET) {
        Some((i + 2, tpl, link + 1))
    } else if is_pair(s, i, hi, RBRACKET, RBRACKET) {
        Some((i + 2, tpl, if link > 0 { link - 1 } else { 0 }))
    } else {
        None
    }
}

/// The segments of `[seg_start, hi)` between occurrences of `pat` that stand
/// outside every `{{...}}` and `[[...]]`, read from `i` on at the depths
/// `tpl` and `link`.
pub open spec fn split_from(
    s: Seq<u8>,
    hi: int,
    pat: Seq<u8>,
    i: int,
    seg_start: int,
    tpl: nat,
    link: nat,
) -> Seq<(int, int)>
    decreases hi - i,
{
    if i >= hi || pat.len() == 0 {
        seq![(seg_start, hi)]
    } else {
        match nest_step(s, i, hi, tpl, link) {
            Some((j, t, l)) => split_from(s, hi, pat, j, seg_start, t, l),
            None => if tpl == 0 && link == 0 && matches_at(s, i, hi, pat) {
                seq![(seg_start, i)] + split_from(
                    s,
                    hi,
                    pat,
                    i + pat.len(),
                    i + pat.len(),
                    0,
                    0,
                )
            } else {
                split_from(s, hi, pat, i + 1, seg_start, tpl, link)
            },
        }
    }
}

/// The segments of `[lo, hi)` between top-level occurrences of `pat`.
pub open spec fn split_ranges(s: Seq<u8>, lo: int, hi: int, pat: Seq<u8>) -> Seq<(int, int)> {
    split_from(s, hi, pat, lo, lo, 0, 0)
}

pub open spec fn ranges_view(v: Seq<(usize, usize)>) -> Seq<(int, int)> {
    Seq::new(v.len(), |k: int| (v[k].0 as int, v[k].1 as int))
}

/// Every range lies in `[lo, hi]` with its ends in order.
pub open spec fn ranges_within(v: Seq<(usize, usize)>, lo: int, hi: int) -> bool {
    forall|k: int| 0 <= k < v.len() ==> lo <= (#[trigger] v[k]).0 <= v[k].1 <= hi
}

/// Splits `[lo, hi)` at each `pat` that stands outside every `{{...}}` and
/// `[[...]]`. There is always at least one segment.
pub fn split_top(s: &[u8], lo: usize, hi: usize, pat: &[u8]) -> (out: Vec<(usize, usize)>)
    requires
        lo <= hi <= s.len(),
        pat@.len() > 0,
    ensures
        ranges_view(out@) == split_ranges(s@, lo as int, hi as int, pat@),
        ranges_within(out@, lo as int, hi as int),
        out@.len() > 0,
{
    let mut out: Vec<(usize, usize)> = Vec::new();
    let mut i: usize = lo;
    let mut seg_start: usize = lo;
    let mut tpl: usize = 0;
    let mut link: usize = 0;
    while i < hi
        invariant
            lo <= seg_start <= i <= hi <= s.len(),
            tpl <= i,
            link <= i,
            pat@.len() > 0,
            ranges_within(out@, lo as int, hi as int),
            ranges_view(out@) + split_from(
                s@,
                hi as int,
                pat@,
                i as int,
                seg_start as int,
                tpl as nat,
                link as nat,
            ) =~= split_ranges(s@, lo as int, hi as int, pat@),
        decreases hi - i,
    {
        match nest(s, i, hi, tpl, link) {
            Some((j, t, l)) => {
                i = j;
                tpl = t;
                link = l;
            },
            None => {
                if tpl == 0 && link == 0 && starts_with(s, i, hi, pat) {
                    let ghost before = ranges_view(out@);
                    out.push((seg_start, i));
                    assert(ranges_view(out@) =~= before + seq![(seg_start as int, i as int)]);
                    i = i + pat.len();
                    seg_start = i;
                } else {
                    i = i + 1;
                }
            },
        }
    }
    let ghost before = ranges_view(out@);
    out.push((seg_start, hi));
    assert(ranges_view(out@) =~= before + seq![(seg_start as int, hi as int)]);
    out
}

/// The position of the first `=` of `[i, hi)` that stands outside every
/// `{{...}}` and `[[...]]`, read at the depths `tpl` and `link`.
pub open spec fn top_level_eq_from(s: Seq<u8>, i: int, hi: int, tpl: nat, link: nat) -> Option<int>
    decreases hi - i,
{
    if i >= hi {
        None
    } else {
        match nest_step(s, i, hi, tpl, link) {
            Some((j, t, l)) => top_level_eq_from(s, j, hi, t, l),
            None => if tpl == 0 && link == 0 && byte_at(s, i, hi, EQ) {
                Some(i)
            } else {
                top_level_eq_from(s, i + 1, hi, tpl, link)
            },
        }
    }
}

pub fn find_top_level_eq(s: &[u8], lo: usize, hi: usize) -> (r: Option<usize>)
    requires
        lo <= hi <= s.len(),
    ensures
        opt_int(r) == top_level_eq_from(s@, lo as int, hi as int, 0, 0),
        r matches Some(p) ==> lo <= p < hi,
{
    let mut i: usize = lo;
    let mut tpl: usize = 0;
    let mut link: usize = 0;
    while i < hi
        invariant
            lo <= i <= hi <= s.len(),
            tpl <= i,
            link <= i,
            top_level_eq_from(s@, i as int, hi as int, tpl as nat, link as nat)
                == top_level_eq_from(s@, lo as int, hi as int, 0, 0),
        decreases hi - i,
    {
        match nest(s, i, hi, tpl, link) {
            Some((j, t, l)) => {
                i = j;
                tpl = t;
                link = l;
            },
            None => {
                if tpl == 0 && link == 0 && s[i] == EQ {
                    return Some(i);
                }
                i = i + 1;
            },
        }
    }
    None
}

/// Where the pair of `open` bytes at the start is closed: the position
/// after the pair of `close` bytes that brings the depth back to zero, read
/// from `i` on at depth `depth`. Pairs nest.
pub open spec fn matching_end_from(
    s: Seq<u8>,
    i: int,
    hi: int,
    depth: nat,
    open: u8,
    close: u8,
) -> Option<int>
    decreases hi - i,
{
    if i >= hi {
        None
    } else if pair_at(s, i, hi, open, open) {
        matching_end_from(s, i + 2, hi, depth + 1, open, close)
    } else if pair_at(s, i, hi, close, close) {
        if depth == 0 {
            None
        } else if depth == 1 {
            Some(i + 2)
        } else {
            matching_end_from(s, i + 2, hi, (depth - 1) as nat, open, close)
        }
    } else {
        matching_end_from(s, i + 1, hi, depth, open, close)
    }
}

/// Finds the end of the construct that a pair of `open` bytes opens at
/// `lo`.
pub fn find_matching(s: &[u8], lo: usize, hi: usize, open: u8, close: u8) -> (r: Option<usize>)
    requires
        lo <= hi <= s.len(),
        open != close,
    ensures
        opt_int(r) == matching_end_from(s@, lo as int, hi as int, 0, open, close),
        r matches Some(e) ==> lo + 4 <= e <= hi,
{
    let mut depth: usize = 0;
    let mut i: usize = lo;
    while i < hi
        invariant
            lo <= i <= hi <= s.len(),
            depth <= i,
            depth > 0 ==> lo + 2 <= i,
            matching_end_from(s@, i as int, hi as int, depth as nat, open, close)
                == matching_end_from(s@, lo as int, hi as int, 0, open, close),
        decreases hi - i,
    {
        if is_pair(s, i, hi, open, open) {
            depth = depth + 1;
            i = i + 2;
        } else if is_pair(s, i, hi, close, close) {
            if depth == 0 {
                return None;
            }
            depth = depth - 1;
            i = i + 2;
            if depth == 0 {
                return Some(i);
            }
        } else {
            i = i + 1;
        }
    }
    None
}

/// In well-formed UTF-8, a white-space character that starts on a character
/// boundary ends on one.
pub proof fn lemma_ws_boundary(b: Seq<u8>, q: int, hi: int)
    requires
        valid_utf8(b),
        0 <= q < hi <= b.len(),
        is_char_boundary(b, q),
        ws_len_at(b, q, hi) > 0,
    ensures
        is_char_boundary(b, q + ws_len_at(b, q, hi)),
{
    let n = ws_len_at(b, q, hi);
    let len = b.len() as int;
    if q + n == len {
        is_char_boundary_start_end_of_seq(b);
    } else {
        valid_utf8_split(b, q);
        let suffix = b.subrange(q, len);
        assert(valid_utf8(suffix));
        assert(suffix[0] == b[q]);
        if n >= 2 {
            assert(suffix[1] == b[q + 1]);
        }
        reveal_with_fuel(valid_utf8, 2);
        assert(valid_first_scalar(suffix));
        assert(length_of_first_scalar(suffix) == n);
        let rest = pop_first_scalar(suffix);
        assert(rest =~= b.subrange(q + n, len));
        assert(valid_utf8(rest));
        assert(rest.len() > 0);
        assert(valid_first_scalar(rest));
        assert(rest[0] == b[q + n]);
        is_char_boundary_iff_is_leading_byte(b, q + n);
    }
}

/// In well-formed UTF-8, trimming leading white space from a character
/// boundary ends on a character boundary.
pub proof fn lemma_trim_start_boundary(b: Seq<u8>, lo: int, hi: int)
    requires
        valid_utf8(b),
        0 <= lo <= hi <= b.len(),
        is_char_boundary(b, lo),
    ensures
        is_char_boundary(b, trim_start(b, lo, hi)),
    decreases hi - lo,
{
    if ws_len_at(b, lo, hi) > 0 {
        lemma_ws_boundary(b, lo, hi);
        lemma_trim_start_boundary(b, lo + ws_len_at(b, lo, hi), hi);
    }
}

/// In well-formed UTF-8, trimming trailing white space from a character
/// boundary ends on a character boundary.
pub proof fn lemma_trim_end_boundary(b: Seq<u8>, lo: int, hi: int)
    requires
        valid_utf8(b),
        0 <= lo <= hi <= b.len(),
        is_char_boundary(b, hi),
    ensures
        is_char_boundary(b, crate::text::trim_end(b, lo, hi)),
    decreases hi - lo,
{
    let n = crate::text::ws_len_before(b, lo, hi);
    if n > 0 {
        is_char_boundary_iff_not_is_continuation_byte(b, hi - n);
        lemma_trim_end_boundary(b, lo, hi - n);
    }
}

/// The string without one trailing carriage return.
pub fn strip_cr(s: &str) -> (r: &str)
    ensures
        r.spec_bytes() =~= s.spec_bytes().subrange(
            0,
            cr_end(s.spec_bytes(), 0, s.spec_bytes().len() as int),
        ),
{
    let b = s.as_bytes();
    let n: usize = b.len();
    if n > 0 && b[n - 1] == CR {
        proof {
            encode_utf8_valid_utf8(s@);
            is_char_boundary_iff_not_is_continuation_byte(b@, n - 1);
        }
        let (head, _) = s.split_at(n - 1);
        head
    } else {
        assert(s.spec_bytes().subrange(0, n as int) =~= s.spec_bytes());
        s
    }
}

/// The line without a trailing carriage return and without leading white
/// space.
pub fn line_trimmed_start(src: &str, line: LineRange) -> (r: &str)
    requires
        line.start <= line.end <= src.spec_bytes().len(),
        is_char_boundary(src.spec_bytes(), line.start as int),
        is_char_boundary(src.spec_bytes(), line.end as int),
    ensures
        r.spec_bytes() =~= src.spec_bytes().subrange(
            trim_start(
                src.spec_bytes(),
                line.start as int,
                cr_end(src.spec_bytes(), line.start as int, line.end as int),
            ),
            cr_end(src.spec_bytes(), line.start as int, line.end as int),
        ),
{
    let b = src.as_bytes();
    let te = strip_cr_end(b, line.start, line.end);
    let p = skip_ws(b, line.start, te);
    proof {
        encode_utf8_valid_utf8(src@);
        if te < line.end {
            is_char_boundary_iff_not_is_continuation_byte(b@, te as int);
        }
        lemma_trim_start_boundary(b@, line.start as int, te as int);
        valid_utf8_split(b@, te as int);
    }
    let (head, _) = src.split_at(te);
    proof {
        let hb = head.spec_bytes();
        assert(hb =~= b@.subrange(0, te as int));
        if p < te {
            is_char_boundary_iff_not_is_continuation_byte(b@, p as int);
            assert(hb[p as int] == b@[p as int]);
            is_char_boundary_iff_not_is_continuation_byte(hb, p as int);
        } else {
            is_char_boundary_start_end_of_seq(hb);
        }
    }
    let (_, tail) = head.split_at(p);
    assert(tail.spec_bytes() =~= b@.subrange(p as int, te as int));
    tail
}

/// `char::encode_utf8`, into a fresh vector: the one to four bytes that
/// encode the character. Nothing is proved of it here.
#[verifier::external_body]
pub(crate) fn char_bytes(c: char) -> (r: Vec<u8>)
    ensures
        r@ == encode_utf8(seq![c]),
        1 <= r@.len() <= 4,
{
    let mut buf = [0u8; 4];
    c.encode_utf8(&mut buf).as_bytes().to_vec()
}

/// Splits `s` at each `delim` that stands outside every `{{...}}` and
/// `[[...]]`, and hands out the byte ranges of the segments.
pub fn split_top_level(s: &str, delim: char) -> (out: Vec<(usize, usize)>)
    ensures
        ranges_view(out@) == split_ranges(
            s.spec_bytes(),
            0,
            s.spec_bytes().len() as int,
            encode_utf8(seq![delim]),
        ),
        ranges_within(out@, 0, s.spec_bytes().len() as int),
        out@.len() > 0,
{
    let b = s.as_bytes();
    let pat = char_bytes(delim);
    split_top(b, 0, b.len(), pat.as_slice())
}

} // verus!
