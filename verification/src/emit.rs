//! Building byte strings: appending, replacing, numbers, line prefixes.

use crate::text::{first_byte, find_byte, matches_at, starts_with, CR, NL, SPACE, TAB};
use vstd::prelude::*;
use vstd::string::*;

verus! {

/// Appends `b` to `buf`.
pub fn push_bytes(buf: &mut Vec<u8>, b: &[u8])
    ensures
        final(buf)@ == old(buf)@ + b@,
{
    buf.extend_from_slice(b);
}

/// Appends the bytes of `s` to `buf`.
pub fn push_str(buf: &mut Vec<u8>, s: &str)
    ensures
        final(buf)@ == old(buf)@ + s.spec_bytes(),
{
    buf.extend_from_slice(s.as_bytes());
}

/// A copy of `[lo, hi)`.
pub fn copy_range(s: &[u8], lo: usize, hi: usize) -> (out: Vec<u8>)
    requires
        lo <= hi <= s.len(),
    ensures
        out@ == s@.subrange(lo as int, hi as int),
{
    let mut out: Vec<u8> = Vec::new();
    out.extend_from_slice(&s[lo..hi]);
    assert(out@ =~= s@.subrange(lo as int, hi as int));
    out
}

/// A copy of `s`.
pub fn copy_bytes(s: &[u8]) -> (out: Vec<u8>)
    ensures
        out@ == s@,
{
    let mut out: Vec<u8> = Vec::new();
    out.extend_from_slice(s);
    assert(out@ =~= s@);
    out
}

/// `s` with every `from` replaced by `to`.
pub open spec fn replaced(s: Seq<u8>, from: u8, to: Seq<u8>) -> Seq<u8>
    decreases s.len(),
{
    if s.len() == 0 {
        Seq::empty()
    } else if s[s.len() - 1] == from {
        replaced(s.drop_last(), from, to) + to
    } else {
        replaced(s.drop_last(), from, to).push(s[s.len() - 1])
    }
}

pub fn replace_byte(s: &[u8], from: u8, to: &[u8]) -> (out: Vec<u8>)
    ensures
        out@ == replaced(s@, from, to@),
{
    let mut out: Vec<u8> = Vec::new();
    let mut i: usize = 0;
    assert(s@.subrange(0, 0) =~= Seq::empty());
    while i < s.len()
        invariant
            i <= s.len(),
            out@ == replaced(s@.subrange(0, i as int), from, to@),
        decreases s.len() - i,
    {
        assert(s@.subrange(0, i + 1).drop_last() =~= s@.subrange(0, i as int));
        if s[i] == from {
            out.extend_from_slice(to);
        } else {
            out.push(s[i]);
        }
        i = i + 1;
    }
    assert(s@.subrange(0, s@.len() as int) =~= s@);
    out
}

/// The decimal digits of `n`.
pub open spec fn decimal(n: nat) -> Seq<u8>
    decreases n,
{
    if n < 10 {
        seq![(48 + n) as u8]
    } else {
        decimal(n / 10).push((48 + n % 10) as u8)
    }
}

/// Appends the decimal digits of `n`.
pub fn push_decimal(buf: &mut Vec<u8>, n: usize)
    ensures
        final(buf)@ == old(buf)@ + decimal(n as nat),
    decreases n,
{
    if n < 10 {
        buf.push((48 + n) as u8);
        assert(buf@ =~= old(buf)@ + decimal(n as nat));
    } else {
        push_decimal(buf, n / 10);
        buf.push((48 + n % 10) as u8);
        assert(buf@ =~= old(buf)@ + decimal(n as nat));
    }
}

/// `n` times the byte `b`.
pub open spec fn repeated(b: u8, n: nat) -> Seq<u8> {
    Seq::new(n, |k: int| b)
}

pub fn push_repeated(buf: &mut Vec<u8>, b: u8, n: usize)
    ensures
        final(buf)@ == old(buf)@ + repeated(b, n as nat),
{
    let mut k: usize = 0;
    assert(buf@ =~= old(buf)@ + repeated(b, 0));
    while k < n
        invariant
            k <= n,
            buf@ == old(buf)@ + repeated(b, k as nat),
        decreases n - k,
    {
        buf.push(b);
        assert(buf@ =~= old(buf)@ + repeated(b, (k + 1) as nat));
        k = k + 1;
    }
}

/// The line that starts at `start`, without its line ending: up to the next
/// newline, less a carriage return before that newline.
pub open spec fn line_at(s: Seq<u8>, start: int) -> (int, int) {
    match first_byte(s, start, s.len() as int, NL) {
        Some(p) => (
            if start < p && s[p - 1] == CR {
                p - 1
            } else {
                p
            },
            p + 1,
        ),
        None => (s.len() as int, s.len() as int),
    }
}

/// Each line of `s` from `start` on with `prefix` before it, the lines joined
/// by newlines. A line ends at a newline or at a carriage return and a
/// newline; what follows the last newline is a line only if it is not empty.
pub open spec fn prefixed_from(s: Seq<u8>, start: int, prefix: Seq<u8>, first: bool) -> Seq<u8>
    decreases s.len() - start,
{
    if start < 0 || start >= s.len() {
        Seq::empty()
    } else {
        let l = line_at(s, start);
        let head = if first {
            prefix + s.subrange(start, l.0)
        } else {
            seq![NL] + prefix + s.subrange(start, l.0)
        };
        if start < l.1 <= s.len() {
            head + prefixed_from(s, l.1, prefix, false)
        } else {
            head
        }
    }
}

pub open spec fn prefixed(s: Seq<u8>, prefix: Seq<u8>) -> Seq<u8> {
    prefixed_from(s, 0, prefix, true)
}

/// Puts `prefix` before every line of `text`.
pub fn prefix_lines(text: &[u8], prefix: &[u8]) -> (out: Vec<u8>)
    ensures
        out@ == prefixed(text@, prefix@),
{
    let mut out: Vec<u8> = Vec::new();
    let mut start: usize = 0;
    let mut first = true;
    assert(out@ + prefixed_from(text@, 0, prefix@, true) =~= prefixed(text@, prefix@));
    while start < text.len()
        invariant
            start <= text.len(),
            out@ + prefixed_from(text@, start as int, prefix@, first) =~= prefixed(
                text@,
                prefix@,
            ),
        decreases text.len() - start,
    {
        let ghost out0 = out@;
        let ghost here = prefixed_from(text@, start as int, prefix@, first);
        let (end, next) = match find_byte(text, start, text.len(), NL) {
            Some(p) => (
                if start < p && text[p - 1] == CR {
                    p - 1
                } else {
                    p
                },
                p + 1,
            ),
            None => (text.len(), text.len()),
        };
        if !first {
            out.push(NL);
        }
        out.extend_from_slice(prefix);
        out.extend_from_slice(&text[start..end]);
        let ghost head = if first {
            prefix@ + text@.subrange(start as int, end as int)
        } else {
            seq![NL] + prefix@ + text@.subrange(start as int, end as int)
        };
        assert(out@ =~= out0 + head);
        if next > start && next <= text.len() {
            assert(here == head + prefixed_from(text@, next as int, prefix@, false));
            assert(out@ + prefixed_from(text@, next as int, prefix@, false) =~= out0 + here);
            first = false;
            start = next;
        } else {
            assert(here == head);
            assert(prefixed_from(text@, text@.len() as int, prefix@, false) =~= Seq::empty());
            assert(out@ + prefixed_from(text@, text@.len() as int, prefix@, false) =~= out0
                + here);
            first = false;
            start = text.len();
        }
    }
    assert(prefixed_from(text@, start as int, prefix@, first) =~= Seq::empty());
    out
}

/// The lower-case hexadecimal digit of a value below 16.
pub open spec fn hex_digit(n: u8) -> u8 {
    if n < 10 {
        (48 + n) as u8
    } else {
        (87 + n) as u8
    }
}

pub fn hex(n: u8) -> (r: u8)
    requires
        n < 16,
    ensures
        r == hex_digit(n),
{
    if n < 10 {
        48 + n
    } else {
        87 + n
    }
}

/// The last position at or before `hi` that follows neither a space nor a
/// tab.
pub open spec fn blanks_start(s: Seq<u8>, lo: int, hi: int) -> int
    decreases hi - lo,
{
    if 0 <= lo < hi <= s.len() && (s[hi - 1] == SPACE || s[hi - 1] == TAB) {
        blanks_start(s, lo, hi - 1)
    } else {
        hi
    }
}

/// Drops the spaces and tabs that `buf` ends with.
pub fn pop_blanks(buf: &mut Vec<u8>)
    ensures
        final(buf)@ == old(buf)@.subrange(0, blanks_start(old(buf)@, 0, old(buf)@.len() as int)),
{
    let ghost s = buf@;
    loop
        invariant
            buf@.len() <= s.len(),
            buf@ == s.subrange(0, buf@.len() as int),
            blanks_start(s, 0, buf@.len() as int) == blanks_start(s, 0, s.len() as int),
        ensures
            buf@ == s.subrange(0, blanks_start(s, 0, s.len() as int)),
        decreases buf@.len(),
    {
        let n: usize = buf.len();
        if n == 0 {
            break ;
        }
        let last = buf[n - 1];
        if !(last == SPACE || last == TAB) {
            break ;
        }
        buf.pop();
        assert(buf@ =~= s.subrange(0, n - 1));
    }
}


/// `s` from `i` on with every occurrence of `from` replaced by `to`, read
/// from left to right; occurrences do not overlap.
pub open spec fn replaced_sub_from(s: Seq<u8>, i: int, from: Seq<u8>, to: Seq<u8>) -> Seq<u8>
    decreases s.len() - i,
{
    if i < 0 || i >= s.len() {
        Seq::empty()
    } else if from.len() > 0 && matches_at(s, i, s.len() as int, from) {
        to + replaced_sub_from(s, i + from.len(), from, to)
    } else {
        seq![s[i]] + replaced_sub_from(s, i + 1, from, to)
    }
}

/// `s` with every occurrence of `from` replaced by `to`.
pub open spec fn replaced_sub(s: Seq<u8>, from: Seq<u8>, to: Seq<u8>) -> Seq<u8> {
    replaced_sub_from(s, 0, from, to)
}

pub fn replace_sub(s: &[u8], from: &[u8], to: &[u8]) -> (out: Vec<u8>)
    ensures
        out@ == replaced_sub(s@, from@, to@),
{
    let mut out: Vec<u8> = Vec::new();
    let mut i: usize = 0;
    assert(out@ + replaced_sub_from(s@, 0, from@, to@) =~= replaced_sub(s@, from@, to@));
    while i < s.len()
        invariant
            i <= s.len(),
            out@ + replaced_sub_from(s@, i as int, from@, to@) =~= replaced_sub(s@, from@, to@),
        decreases s.len() - i,
    {
        let ghost out0 = out@;
        let ghost here = replaced_sub_from(s@, i as int, from@, to@);
        if from.len() > 0 && starts_with(s, i, s.len(), from) {
            out.extend_from_slice(to);
            assert(here == to@ + replaced_sub_from(s@, i + from@.len(), from@, to@));
            i = i + from.len();
            assert(out@ + replaced_sub_from(s@, i as int, from@, to@) =~= out0 + here);
        } else {
            out.push(s[i]);
            assert(here == seq![s@[i as int]] + replaced_sub_from(s@, i + 1, from@, to@));
            i = i + 1;
            assert(out@ + replaced_sub_from(s@, i as int, from@, to@) =~= out0 + here);
        }
    }
    assert(replaced_sub_from(s@, i as int, from@, to@) =~= Seq::empty());
    out
}

} // verus!
