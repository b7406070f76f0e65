//! What the searches and splits find, said without recursion.

use crate::emit::decimal;
use crate::parse::blocks::{heading_at, skip_blanks};
use crate::parse::util::{lines_from, lines_of, nest_step, split_from, split_ranges, LineRange};
use crate::text::{
    all_digits, digits_value, first_byte, first_match, first_match_ci, is_digit, matches_at,
    matches_at_ci, skip_run, skip_run_back, trim_end, ws_len_before, EQ, NL, SPACE,
    TAB,
};
use vstd::prelude::*;

verus! {

/// `first_byte` finds the least position that holds the byte, and finds
/// none only where none holds it.
pub proof fn lemma_first_byte_is_least(s: Seq<u8>, lo: int, hi: int, b: u8)
    requires
        0 <= lo <= hi <= s.len(),
    ensures
        match first_byte(s, lo, hi, b) {
            Some(p) => lo <= p < hi && s[p] == b && forall|q: int| lo <= q < p ==> s[q] != b,
            None => forall|q: int| lo <= q < hi ==> s[q] != b,
        },
    decreases hi - lo,
{
    if lo < hi && s[lo] != b {
        lemma_first_byte_is_least(s, lo + 1, hi, b);
    }
}

/// `first_match` finds the least position at which the pattern stands, and
/// finds none only where it stands nowhere.
pub proof fn lemma_first_match_is_least(s: Seq<u8>, lo: int, hi: int, pat: Seq<u8>)
    requires
        0 <= lo <= hi <= s.len(),
    ensures
        match first_match(s, lo, hi, pat) {
            Some(p) => lo <= p && matches_at(s, p, hi, pat) && forall|q: int|
                lo <= q < p ==> !matches_at(s, q, hi, pat),
            None => forall|q: int| lo <= q ==> !matches_at(s, q, hi, pat),
        },
    decreases hi - lo,
{
    if lo + pat.len() <= hi && !matches_at(s, lo, hi, pat) {
        lemma_first_match_is_least(s, lo + 1, hi, pat);
    }
}

/// `first_match_ci` finds the least position at which the pattern stands,
/// letter case aside, and finds none only where it stands nowhere.
pub proof fn lemma_first_match_ci_is_least(s: Seq<u8>, lo: int, hi: int, pat: Seq<u8>)
    requires
        0 <= lo <= hi <= s.len(),
    ensures
        match first_match_ci(s, lo, hi, pat) {
            Some(p) => lo <= p && matches_at_ci(s, p, hi, pat) && forall|q: int|
                lo <= q < p ==> !matches_at_ci(s, q, hi, pat),
            None => forall|q: int| lo <= q ==> !matches_at_ci(s, q, hi, pat),
        },
    decreases hi - lo,
{
    if lo + pat.len() <= hi && !matches_at_ci(s, lo, hi, pat) {
        lemma_first_match_ci_is_least(s, lo + 1, hi, pat);
    }
}

/// No newline stands inside the line.
pub open spec fn holds_no_newline(s: Seq<u8>, line: LineRange) -> bool {
    forall|j: int| line.start <= j < line.end && j < s.len() ==> s[j] != NL
}

/// A newline stands at the line's end.
pub open spec fn ends_at_newline(s: Seq<u8>, line: LineRange) -> bool {
    line.end < s.len() && s[line.end as int] == NL
}

proof fn lemma_lines_from_split(s: Seq<u8>, start: int, i: int)
    requires
        0 <= start <= i <= s.len(),
        s.len() <= usize::MAX,
        forall|j: int| start <= j < i ==> s[j] != NL,
    ensures
        forall|k: int|
            0 <= k < lines_from(s, start, i).len() ==> holds_no_newline(
                s,
                #[trigger] lines_from(s, start, i)[k],
            ),
        forall|k: int|
            0 <= k < lines_from(s, start, i).len() - 1 ==> ends_at_newline(
                s,
                #[trigger] lines_from(s, start, i)[k],
            ),
    decreases s.len() - i,
{
    let lines = lines_from(s, start, i);
    if i >= s.len() {
        assert(lines.len() == 1);
        assert(lines[0].start == start && lines[0].end == s.len());
        assert(holds_no_newline(s, lines[0]));
    } else if s[i] == NL {
        lemma_lines_from_split(s, i + 1, i + 1);
        let rest = lines_from(s, i + 1, i + 1);
        let first = LineRange {
            start: start as usize,
            end: i as usize,
            end_with_newline: (i + 1) as usize,
        };
        assert(lines =~= seq![first] + rest);
        assert(first.start == start && first.end == i);
        assert(holds_no_newline(s, first));
        assert(ends_at_newline(s, first));
        assert forall|k: int| 0 <= k < lines.len() implies holds_no_newline(
            s,
            #[trigger] lines[k],
        ) by {
            if k > 0 {
                assert(lines[k] == rest[k - 1]);
            }
        }
        assert forall|k: int| 0 <= k < lines.len() - 1 implies ends_at_newline(
            s,
            #[trigger] lines[k],
        ) by {
            if k > 0 {
                assert(lines[k] == rest[k - 1]);
            }
        }
    } else {
        lemma_lines_from_split(s, start, i + 1);
        assert(lines == lines_from(s, start, i + 1));
    }
}

/// The lines of a text are what stands between its newlines: no line holds
/// a newline, and a newline stands at the end of every line but the last.
pub proof fn lemma_lines_are_split_at_newlines(s: Seq<u8>)
    requires
        s.len() <= usize::MAX,
    ensures
        forall|k: int|
            0 <= k < lines_of(s).len() ==> holds_no_newline(s, #[trigger] lines_of(s)[k]),
        forall|k: int|
            0 <= k < lines_of(s).len() - 1 ==> ends_at_newline(s, #[trigger] lines_of(s)[k]),
{
    lemma_lines_from_split(s, 0, 0);
}

proof fn lemma_split_from_tiles(
    s: Seq<u8>,
    hi: int,
    pat: Seq<u8>,
    i: int,
    seg_start: int,
    tpl: nat,
    link: nat,
)
    requires
        0 <= seg_start <= i <= hi <= s.len(),
        pat.len() > 0,
    ensures
        ({
            let segs = split_from(s, hi, pat, i, seg_start, tpl, link);
            &&& segs.len() > 0
            &&& segs[0].0 == seg_start
            &&& segs[0].1 >= i
            &&& segs[segs.len() - 1].1 == hi
            &&& forall|k: int| 0 <= k < segs.len() ==> (#[trigger] segs[k]).0 <= segs[k].1 <= hi
            &&& forall|k: int|
                0 <= k < segs.len() - 1 ==> matches_at(s, (#[trigger] segs[k]).1, hi, pat) && segs[k
                    + 1].0 == segs[k].1 + pat.len()
        }),
    decreases hi - i,
{
    let segs = split_from(s, hi, pat, i, seg_start, tpl, link);
    if i >= hi {
    } else {
        match nest_step(s, i, hi, tpl, link) {
            Some((j, t, l)) => {
                lemma_split_from_tiles(s, hi, pat, j, seg_start, t, l);
            },
            None => {
                if tpl == 0 && link == 0 && matches_at(s, i, hi, pat) {
                    let next = i + pat.len();
                    lemma_split_from_tiles(s, hi, pat, next, next, 0, 0);
                    let rest = split_from(s, hi, pat, next, next, 0, 0);
                    assert(segs =~= seq![(seg_start, i)] + rest);
                    assert forall|k: int| 0 <= k < segs.len() implies (#[trigger] segs[k]).0
                        <= segs[k].1 <= hi by {
                        if k > 0 {
                            assert(segs[k] == rest[k - 1]);
                        }
                    }
                    assert forall|k: int| 0 <= k < segs.len() - 1 implies matches_at(
                        s,
                        (#[trigger] segs[k]).1,
                        hi,
                        pat,
                    ) && segs[k + 1].0 == segs[k].1 + pat.len() by {
                        if k > 0 {
                            assert(segs[k] == rest[k - 1]);
                            assert(segs[k + 1] == rest[k]);
                        } else {
                            assert(segs[1] == rest[0]);
                        }
                    }
                } else {
                    lemma_split_from_tiles(s, hi, pat, i + 1, seg_start, tpl, link);
                }
            },
        }
    }
}

/// The segments of a split lie one after the other: the first starts where
/// the range starts, the last ends where it ends, and between each two stands
/// the separator.
pub proof fn lemma_split_segments_tile_the_range(s: Seq<u8>, lo: int, hi: int, pat: Seq<u8>)
    requires
        0 <= lo <= hi <= s.len(),
        pat.len() > 0,
    ensures
        split_ranges(s, lo, hi, pat).len() > 0,
        split_ranges(s, lo, hi, pat)[0].0 == lo,
        split_ranges(s, lo, hi, pat)[split_ranges(s, lo, hi, pat).len() - 1].1 == hi,
        forall|k: int|
            0 <= k < split_ranges(s, lo, hi, pat).len() - 1 ==> matches_at(
                s,
                (#[trigger] split_ranges(s, lo, hi, pat)[k]).1,
                hi,
                pat,
            ) && split_ranges(s, lo, hi, pat)[k + 1].0 == split_ranges(s, lo, hi, pat)[k].1
                + pat.len(),
{
    lemma_split_from_tiles(s, hi, pat, lo, lo, 0, 0);
}

/// The decimal digits of a number read back as that number.
pub proof fn lemma_decimal_reads_back(n: nat)
    ensures
        decimal(n).len() > 0,
        all_digits(decimal(n), 0, decimal(n).len() as int),
        digits_value(decimal(n), 0, decimal(n).len() as int) == n,
    decreases n,
{
    let d = decimal(n);
    if n < 10 {
        assert(d.len() == 1);
        assert(d[0] == (48 + n) as u8);
        assert(is_digit(d[0]));
        reveal_with_fuel(digits_value, 2);
    } else {
        lemma_decimal_reads_back(n / 10);
        let head = decimal(n / 10);
        assert(d == head.push((48 + n % 10) as u8));
        let len = d.len() as int;
        assert(d.subrange(0, len - 1) =~= head);
        assert forall|k: int| 0 <= k < len implies is_digit(#[trigger] d[k]) by {
            if k < len - 1 {
                assert(d[k] == head[k]);
                assert(is_digit(head[k]));
            }
        }
        lemma_digits_value_prefix(d, head, len - 1);
        assert(digits_value(d, 0, len) == digits_value(d, 0, len - 1) * 10 + (d[len - 1] - 48));
    }
}

/// `skip_run` stops behind the whole run: every byte it passed is the byte,
/// and the one it stopped at is not.
pub proof fn lemma_skip_run_is_the_whole_run(s: Seq<u8>, lo: int, hi: int, b: u8)
    requires
        0 <= lo <= hi <= s.len(),
    ensures
        lo <= skip_run(s, lo, hi, b) <= hi,
        forall|j: int| lo <= j < skip_run(s, lo, hi, b) ==> s[j] == b,
        skip_run(s, lo, hi, b) < hi ==> s[skip_run(s, lo, hi, b)] != b,
    decreases hi - lo,
{
    if lo < hi && s[lo] == b {
        lemma_skip_run_is_the_whole_run(s, lo + 1, hi, b);
    }
}

/// `skip_run_back` stops before the whole run: every byte it passed is the
/// byte, and the one before is not.
pub proof fn lemma_skip_run_back_is_the_whole_run(s: Seq<u8>, lo: int, hi: int, b: u8)
    requires
        0 <= lo <= hi <= s.len(),
    ensures
        lo <= skip_run_back(s, lo, hi, b) <= hi,
        forall|j: int| skip_run_back(s, lo, hi, b) <= j < hi ==> s[j] == b,
        lo < skip_run_back(s, lo, hi, b) ==> s[skip_run_back(s, lo, hi, b) - 1] != b,
    decreases hi - lo,
{
    if lo < hi && s[hi - 1] == b {
        lemma_skip_run_back_is_the_whole_run(s, lo, hi - 1, b);
    }
}

proof fn lemma_skip_blanks_bounds(s: Seq<u8>, lo: int, hi: int)
    requires
        0 <= lo <= hi <= s.len(),
    ensures
        lo <= skip_blanks(s, lo, hi) <= hi,
    decreases hi - lo,
{
    if lo < hi && (s[lo] == SPACE || s[lo] == TAB) {
        lemma_skip_blanks_bounds(s, lo + 1, hi);
    }
}

/// The two runs of `=` of a heading are of one length, which is its level:
/// a line is a heading of level `n` only if exactly `n` signs open it and
/// exactly `n` close it, with the title between them. A line whose runs
/// differ in length is no heading.
pub proof fn lemma_heading_runs_match(s: Seq<u8>, line: LineRange)
    requires
        line.start <= line.end <= s.len(),
        heading_at(s, line) is Some,
    ensures
        ({
            let found = heading_at(s, line)->0;
            let level = found.0 as int;
            let open = skip_blanks(s, line.start as int, line.end as int);
            let close = trim_end(s, open, line.end as int);
            &&& 1 <= level <= 6
            &&& line.start <= open && open + 2 * level < close <= line.end
            &&& forall|j: int| open <= j < open + level ==> s[j] == EQ
            &&& s[open + level] != EQ
            &&& forall|j: int| close - level <= j < close ==> s[j] == EQ
            &&& s[close - level - 1] != EQ
        }),
{
    let open = skip_blanks(s, line.start as int, line.end as int);
    lemma_skip_blanks_bounds(s, line.start as int, line.end as int);
    let n = skip_run(s, open, line.end as int, EQ) - open;
    let close = trim_end(s, open, line.end as int);
    lemma_trim_end_bounds(s, open, line.end as int);
    lemma_skip_run_is_the_whole_run(s, open, line.end as int, EQ);
    lemma_skip_run_back_is_the_whole_run(s, open + n, close, EQ);
}

proof fn lemma_trim_end_bounds(s: Seq<u8>, lo: int, hi: int)
    requires
        0 <= lo <= hi <= s.len(),
    ensures
        lo <= trim_end(s, lo, hi) <= hi,
    decreases hi - lo,
{
    let n = ws_len_before(s, lo, hi);
    if n > 0 {
        lemma_trim_end_bounds(s, lo, hi - n);
    }
}

proof fn lemma_digits_value_prefix(d: Seq<u8>, head: Seq<u8>, k: int)
    requires
        0 <= k <= head.len() <= d.len(),
        forall|j: int| 0 <= j < head.len() ==> d[j] == head[j],
    ensures
        digits_value(d, 0, k) == digits_value(head, 0, k),
    decreases k,
{
    if k > 0 {
        lemma_digits_value_prefix(d, head, k - 1);
    }
}

} // verus!
