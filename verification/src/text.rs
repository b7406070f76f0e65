//! Byte-level text primitives.
//!
//! The grammar reads its input as UTF-8 bytes and speaks of positions in it,
//! so every function here takes a byte sequence and a range `[lo, hi)` of it.
//! Each executable function has a spec function beside it that says what it
//! returns; the grammar's own spec functions are written over those.

use vstd::prelude::*;
use vstd::string::*;
use vstd::utf8::*;

verus! {

pub const TAB: u8 = 9;

pub const NL: u8 = 10;

pub const CR: u8 = 13;

pub const SPACE: u8 = 32;

pub const BANG: u8 = 33;

pub const DQUOTE: u8 = 34;

pub const HASH: u8 = 35;

pub const QUOTE: u8 = 39;

pub const STAR: u8 = 42;

pub const PLUS: u8 = 43;

pub const MINUS: u8 = 45;

pub const SLASH: u8 = 47;

pub const COLON: u8 = 58;

pub const SEMI: u8 = 59;

pub const LT: u8 = 60;

pub const EQ: u8 = 61;

pub const GT: u8 = 62;

pub const LBRACKET: u8 = 91;

pub const RBRACKET: u8 = 93;

pub const UNDERSCORE: u8 = 95;

pub const LBRACE: u8 = 123;

pub const PIPE: u8 = 124;

pub const RBRACE: u8 = 125;

/// The bytes `a`, `b` stand at `i` and `i + 1`, before `hi`.
pub open spec fn pair_at(s: Seq<u8>, i: int, hi: int, a: u8, b: u8) -> bool {
    0 <= i && i + 1 < hi <= s.len() && s[i] == a && s[i + 1] == b
}

pub fn is_pair(s: &[u8], i: usize, hi: usize, a: u8, b: u8) -> (r: bool)
    requires
        i <= hi <= s.len(),
    ensures
        r == pair_at(s@, i as int, hi as int, a, b),
{
    hi - i >= 2 && s[i] == a && s[i + 1] == b
}

/// The byte `b` stands at `i`, before `hi`.
pub open spec fn byte_at(s: Seq<u8>, i: int, hi: int, b: u8) -> bool {
    0 <= i < hi <= s.len() && s[i] == b
}

pub fn is_byte(s: &[u8], i: usize, hi: usize, b: u8) -> (r: bool)
    requires
        i <= hi <= s.len(),
    ensures
        r == byte_at(s@, i as int, hi as int, b),
{
    i < hi && s[i] == b
}

/// An optional position as a mathematical integer.
pub open spec fn opt_int(r: Option<usize>) -> Option<int> {
    match r {
        Some(p) => Some(p as int),
        None => None,
    }
}

/// `[lo, hi)` is a range of `s`.
pub open spec fn in_range(s: Seq<u8>, lo: int, hi: int) -> bool {
    0 <= lo <= hi <= s.len()
}

/// ASCII lower-casing of one byte.
pub open spec fn lower(b: u8) -> u8 {
    if 65 <= b <= 90 {
        (b + 32) as u8
    } else {
        b
    }
}

pub open spec fn is_alpha(b: u8) -> bool {
    (65 <= b <= 90) || (97 <= b <= 122)
}

pub open spec fn is_digit(b: u8) -> bool {
    48 <= b <= 57
}

/// The white-space characters that fit in one byte: space and U+0009..U+000D.
pub open spec fn is_ascii_ws(b: u8) -> bool {
    b == 32 || (9 <= b <= 13)
}

/// The two-byte white-space characters: U+0085 and U+00A0.
pub open spec fn is_ws2(a: u8, b: u8) -> bool {
    a == 0xC2 && (b == 0x85 || b == 0xA0)
}

/// The three-byte white-space characters: U+1680, U+2000..U+200A, U+2028,
/// U+2029, U+202F, U+205F and U+3000.
pub open spec fn is_ws3(a: u8, b: u8, c: u8) -> bool {
    ||| (a == 0xE1 && b == 0x9A && c == 0x80)
    ||| (a == 0xE2 && b == 0x80 && ((0x80 <= c <= 0x8A) || c == 0xA8 || c == 0xA9 || c == 0xAF))
    ||| (a == 0xE2 && b == 0x81 && c == 0x9F)
    ||| (a == 0xE3 && b == 0x80 && c == 0x80)
}

/// Length in bytes of the white-space character that starts at `i` and ends
/// at or before `hi`; 0 where none does.
pub open spec fn ws_len_at(s: Seq<u8>, i: int, hi: int) -> int {
    if !(0 <= i < hi <= s.len()) {
        0
    } else if is_ascii_ws(s[i]) {
        1
    } else if i + 1 < hi && is_ws2(s[i], s[i + 1]) {
        2
    } else if i + 2 < hi && is_ws3(s[i], s[i + 1], s[i + 2]) {
        3
    } else {
        0
    }
}

/// Length in bytes of the white-space character that ends at `j` and starts
/// at or after `lo`; 0 where none does.
pub open spec fn ws_len_before(s: Seq<u8>, lo: int, j: int) -> int {
    if !(0 <= lo < j <= s.len()) {
        0
    } else if is_ascii_ws(s[j - 1]) {
        1
    } else if j - 2 >= lo && is_ws2(s[j - 2], s[j - 1]) {
        2
    } else if j - 3 >= lo && is_ws3(s[j - 3], s[j - 2], s[j - 1]) {
        3
    } else {
        0
    }
}

/// The first position at or after `lo` where no white-space character starts.
pub open spec fn trim_start(s: Seq<u8>, lo: int, hi: int) -> int
    decreases hi - lo,
{
    if ws_len_at(s, lo, hi) > 0 {
        trim_start(s, lo + ws_len_at(s, lo, hi), hi)
    } else {
        lo
    }
}

/// The last position at or before `hi` where no white-space character ends.
pub open spec fn trim_end(s: Seq<u8>, lo: int, hi: int) -> int
    decreases hi - lo,
{
    if ws_len_before(s, lo, hi) > 0 {
        trim_end(s, lo, hi - ws_len_before(s, lo, hi))
    } else {
        hi
    }
}

/// `[lo, hi)` holds white space only.
pub open spec fn is_blank(s: Seq<u8>, lo: int, hi: int) -> bool {
    trim_start(s, lo, hi) >= hi
}

/// `pat` stands at `i` and ends at or before `hi`.
pub open spec fn matches_at(s: Seq<u8>, i: int, hi: int, pat: Seq<u8>) -> bool {
    &&& 0 <= i
    &&& i + pat.len() <= hi <= s.len()
    &&& forall|k: int| 0 <= k < pat.len() ==> s[i + k] == #[trigger] pat[k]
}

/// `pat` stands at `i`, letter case aside, and ends at or before `hi`.
pub open spec fn matches_at_ci(s: Seq<u8>, i: int, hi: int, pat: Seq<u8>) -> bool {
    &&& 0 <= i
    &&& i + pat.len() <= hi <= s.len()
    &&& forall|k: int| 0 <= k < pat.len() ==> lower(s[i + k]) == lower(#[trigger] pat[k])
}

/// `[lo, hi)` ends with `pat`.
pub open spec fn ends_with_pat(s: Seq<u8>, lo: int, hi: int, pat: Seq<u8>) -> bool {
    lo <= hi - pat.len() && matches_at(s, hi - pat.len(), hi, pat)
}

/// `[lo, hi)` ends with `pat`, letter case aside.
pub open spec fn ends_with_pat_ci(s: Seq<u8>, lo: int, hi: int, pat: Seq<u8>) -> bool {
    lo <= hi - pat.len() && matches_at_ci(s, hi - pat.len(), hi, pat)
}

/// `[lo, hi)` is `pat`, letter case aside.
pub open spec fn equals_ci(s: Seq<u8>, lo: int, hi: int, pat: Seq<u8>) -> bool {
    hi - lo == pat.len() && matches_at_ci(s, lo, hi, pat)
}

/// `[lo, hi)` is `pat`.
pub open spec fn equals_pat(s: Seq<u8>, lo: int, hi: int, pat: Seq<u8>) -> bool {
    hi - lo == pat.len() && matches_at(s, lo, hi, pat)
}

/// The least position in `[lo, hi)` that holds `b`.
pub open spec fn first_byte(s: Seq<u8>, lo: int, hi: int, b: u8) -> Option<int>
    decreases hi - lo,
{
    if !(0 <= lo < hi <= s.len()) {
        None
    } else if s[lo] == b {
        Some(lo)
    } else {
        first_byte(s, lo + 1, hi, b)
    }
}

/// The least position at or after `lo` where `pat` stands and ends at or
/// before `hi`.
pub open spec fn first_match(s: Seq<u8>, lo: int, hi: int, pat: Seq<u8>) -> Option<int>
    decreases hi - lo,
{
    if !(0 <= lo && lo + pat.len() <= hi <= s.len()) {
        None
    } else if matches_at(s, lo, hi, pat) {
        Some(lo)
    } else {
        first_match(s, lo + 1, hi, pat)
    }
}

/// As `first_match`, letter case aside.
pub open spec fn first_match_ci(s: Seq<u8>, lo: int, hi: int, pat: Seq<u8>) -> Option<int>
    decreases hi - lo,
{
    if !(0 <= lo && lo + pat.len() <= hi <= s.len()) {
        None
    } else if matches_at_ci(s, lo, hi, pat) {
        Some(lo)
    } else {
        first_match_ci(s, lo + 1, hi, pat)
    }
}

/// The first position at or after `lo` that does not hold `b`.
pub open spec fn skip_run(s: Seq<u8>, lo: int, hi: int, b: u8) -> int
    decreases hi - lo,
{
    if 0 <= lo < hi <= s.len() && s[lo] == b {
        skip_run(s, lo + 1, hi, b)
    } else {
        lo
    }
}

/// The first position at or after `lo` that does not hold an ASCII letter.
pub open spec fn skip_alpha(s: Seq<u8>, lo: int, hi: int) -> int
    decreases hi - lo,
{
    if 0 <= lo < hi <= s.len() && is_alpha(s[lo]) {
        skip_alpha(s, lo + 1, hi)
    } else {
        lo
    }
}

/// The last position at or before `hi` that does not follow a `b`.
pub open spec fn skip_run_back(s: Seq<u8>, lo: int, hi: int, b: u8) -> int
    decreases hi - lo,
{
    if 0 <= lo < hi <= s.len() && s[hi - 1] == b {
        skip_run_back(s, lo, hi - 1, b)
    } else {
        hi
    }
}

pub fn to_lower(b: u8) -> (r: u8)
    ensures
        r == lower(b),
{
    if 65 <= b && b <= 90 {
        b + 32
    } else {
        b
    }
}

pub fn alpha(b: u8) -> (r: bool)
    ensures
        r == is_alpha(b),
{
    (65 <= b && b <= 90) || (97 <= b && b <= 122)
}

pub fn ascii_ws(b: u8) -> (r: bool)
    ensures
        r == is_ascii_ws(b),
{
    b == 32 || (9 <= b && b <= 13)
}

fn ws2(a: u8, b: u8) -> (r: bool)
    ensures
        r == is_ws2(a, b),
{
    a == 0xC2 && (b == 0x85 || b == 0xA0)
}

fn ws3(a: u8, b: u8, c: u8) -> (r: bool)
    ensures
        r == is_ws3(a, b, c),
{
    (a == 0xE1 && b == 0x9A && c == 0x80) || (a == 0xE2 && b == 0x80 && ((0x80 <= c && c <= 0x8A)
        || c == 0xA8 || c == 0xA9 || c == 0xAF)) || (a == 0xE2 && b == 0x81 && c == 0x9F) || (a
        == 0xE3 && b == 0x80 && c == 0x80)
}

pub fn ws_at(s: &[u8], i: usize, hi: usize) -> (n: usize)
    requires
        i <= hi <= s.len(),
    ensures
        n == ws_len_at(s@, i as int, hi as int),
        i + n <= hi,
        n <= 3,
{
    if i >= hi {
        0
    } else if ascii_ws(s[i]) {
        1
    } else if hi - i > 1 && ws2(s[i], s[i + 1]) {
        2
    } else if hi - i > 2 && ws3(s[i], s[i + 1], s[i + 2]) {
        3
    } else {
        0
    }
}

pub fn ws_before(s: &[u8], lo: usize, j: usize) -> (n: usize)
    requires
        lo <= j <= s.len(),
    ensures
        n == ws_len_before(s@, lo as int, j as int),
        lo + n <= j,
        n <= 3,
{
    if j <= lo {
        0
    } else if ascii_ws(s[j - 1]) {
        1
    } else if j - lo >= 2 && ws2(s[j - 2], s[j - 1]) {
        2
    } else if j - lo >= 3 && ws3(s[j - 3], s[j - 2], s[j - 1]) {
        3
    } else {
        0
    }
}

pub proof fn lemma_trim_start_bounds(s: Seq<u8>, lo: int, hi: int)
    requires
        in_range(s, lo, hi),
    ensures
        lo <= trim_start(s, lo, hi) <= hi,
        ws_len_at(s, trim_start(s, lo, hi), hi) == 0,
    decreases hi - lo,
{
    if ws_len_at(s, lo, hi) > 0 {
        lemma_trim_start_bounds(s, lo + ws_len_at(s, lo, hi), hi);
    }
}

/// Skips the white space that `[lo, hi)` starts with.
pub fn skip_ws(s: &[u8], lo: usize, hi: usize) -> (p: usize)
    requires
        lo <= hi <= s.len(),
    ensures
        p == trim_start(s@, lo as int, hi as int),
        lo <= p <= hi,
{
    let mut p: usize = lo;
    loop
        invariant
            lo <= p <= hi <= s.len(),
            trim_start(s@, p as int, hi as int) == trim_start(s@, lo as int, hi as int),
        ensures
            p == trim_start(s@, lo as int, hi as int),
        decreases hi - p,
    {
        let n = ws_at(s, p, hi);
        if n == 0 {
            break ;
        }
        p = p + n;
    }
    p
}

/// Drops the white space that `[lo, hi)` ends with.
pub fn skip_ws_back(s: &[u8], lo: usize, hi: usize) -> (p: usize)
    requires
        lo <= hi <= s.len(),
    ensures
        p == trim_end(s@, lo as int, hi as int),
        lo <= p <= hi,
{
    let mut p: usize = hi;
    loop
        invariant
            lo <= p <= hi <= s.len(),
            trim_end(s@, lo as int, p as int) == trim_end(s@, lo as int, hi as int),
        ensures
            p == trim_end(s@, lo as int, hi as int),
        decreases p - lo,
    {
        let n = ws_before(s, lo, p);
        if n == 0 {
            break ;
        }
        p = p - n;
    }
    p
}

pub fn blank(s: &[u8], lo: usize, hi: usize) -> (r: bool)
    requires
        lo <= hi <= s.len(),
    ensures
        r == is_blank(s@, lo as int, hi as int),
{
    skip_ws(s, lo, hi) >= hi
}

pub fn starts_with(s: &[u8], i: usize, hi: usize, pat: &[u8]) -> (r: bool)
    requires
        i <= hi <= s.len(),
    ensures
        r == matches_at(s@, i as int, hi as int, pat@),
{
    if pat.len() > hi - i {
        return false;
    }
    let mut k: usize = 0;
    while k < pat.len()
        invariant
            i + pat.len() <= hi <= s.len(),
            k <= pat.len(),
            forall|j: int| 0 <= j < k ==> s@[i + j] == #[trigger] pat@[j],
        decreases pat.len() - k,
    {
        if s[i + k] != pat[k] {
            return false;
        }
        k = k + 1;
    }
    true
}

pub fn starts_with_ci(s: &[u8], i: usize, hi: usize, pat: &[u8]) -> (r: bool)
    requires
        i <= hi <= s.len(),
    ensures
        r == matches_at_ci(s@, i as int, hi as int, pat@),
{
    if pat.len() > hi - i {
        return false;
    }
    let mut k: usize = 0;
    while k < pat.len()
        invariant
            i + pat.len() <= hi <= s.len(),
            k <= pat.len(),
            forall|j: int| 0 <= j < k ==> lower(s@[i + j]) == lower(#[trigger] pat@[j]),
        decreases pat.len() - k,
    {
        if to_lower(s[i + k]) != to_lower(pat[k]) {
            return false;
        }
        k = k + 1;
    }
    true
}

pub fn ends_with(s: &[u8], lo: usize, hi: usize, pat: &[u8]) -> (r: bool)
    requires
        lo <= hi <= s.len(),
    ensures
        r == ends_with_pat(s@, lo as int, hi as int, pat@),
{
    if pat.len() > hi - lo {
        return false;
    }
    starts_with(s, hi - pat.len(), hi, pat)
}

pub fn ends_with_ci(s: &[u8], lo: usize, hi: usize, pat: &[u8]) -> (r: bool)
    requires
        lo <= hi <= s.len(),
    ensures
        r == ends_with_pat_ci(s@, lo as int, hi as int, pat@),
{
    if pat.len() > hi - lo {
        return false;
    }
    starts_with_ci(s, hi - pat.len(), hi, pat)
}

pub fn eq_ci(s: &[u8], lo: usize, hi: usize, pat: &[u8]) -> (r: bool)
    requires
        lo <= hi <= s.len(),
    ensures
        r == equals_ci(s@, lo as int, hi as int, pat@),
{
    hi - lo == pat.len() && starts_with_ci(s, lo, hi, pat)
}

pub fn eq_pat(s: &[u8], lo: usize, hi: usize, pat: &[u8]) -> (r: bool)
    requires
        lo <= hi <= s.len(),
    ensures
        r == equals_pat(s@, lo as int, hi as int, pat@),
{
    hi - lo == pat.len() && starts_with(s, lo, hi, pat)
}

pub fn find_byte(s: &[u8], lo: usize, hi: usize, b: u8) -> (r: Option<usize>)
    requires
        lo <= hi <= s.len(),
    ensures
        opt_int(r) == first_byte(s@, lo as int, hi as int, b),
        r matches Some(p) ==> lo <= p < hi && s@[p as int] == b,
{
    let mut i: usize = lo;
    while i < hi
        invariant
            lo <= i <= hi <= s.len(),
            first_byte(s@, i as int, hi as int, b) == first_byte(s@, lo as int, hi as int, b),
        decreases hi - i,
    {
        if s[i] == b {
            return Some(i);
        }
        i = i + 1;
    }
    None
}

pub fn find(s: &[u8], lo: usize, hi: usize, pat: &[u8]) -> (r: Option<usize>)
    requires
        lo <= hi <= s.len(),
    ensures
        opt_int(r) == first_match(s@, lo as int, hi as int, pat@),
        r matches Some(p) ==> lo <= p && p + pat@.len() <= hi && matches_at(
            s@,
            p as int,
            hi as int,
            pat@,
        ),
{
    if pat.len() > hi - lo {
        return None;
    }
    let last: usize = hi - pat.len();
    let mut i: usize = lo;
    while i <= last
        invariant
            lo <= i <= last + 1,
            last == hi - pat.len(),
            hi <= s.len(),
            first_match(s@, i as int, hi as int, pat@) == first_match(
                s@,
                lo as int,
                hi as int,
                pat@,
            ),
        decreases last + 1 - i,
    {
        if starts_with(s, i, hi, pat) {
            return Some(i);
        }
        i = i + 1;
    }
    None
}

pub fn find_ci(s: &[u8], lo: usize, hi: usize, pat: &[u8]) -> (r: Option<usize>)
    requires
        lo <= hi <= s.len(),
    ensures
        opt_int(r) == first_match_ci(s@, lo as int, hi as int, pat@),
        r matches Some(p) ==> lo <= p && p + pat@.len() <= hi && matches_at_ci(
            s@,
            p as int,
            hi as int,
            pat@,
        ),
{
    if pat.len() > hi - lo {
        return None;
    }
    let last: usize = hi - pat.len();
    let mut i: usize = lo;
    while i <= last
        invariant
            lo <= i <= last + 1,
            last == hi - pat.len(),
            hi <= s.len(),
            first_match_ci(s@, i as int, hi as int, pat@) == first_match_ci(
                s@,
                lo as int,
                hi as int,
                pat@,
            ),
        decreases last + 1 - i,
    {
        if starts_with_ci(s, i, hi, pat) {
            return Some(i);
        }
        i = i + 1;
    }
    None
}

pub fn skip_byte_run(s: &[u8], lo: usize, hi: usize, b: u8) -> (p: usize)
    requires
        lo <= hi <= s.len(),
    ensures
        p == skip_run(s@, lo as int, hi as int, b),
        lo <= p <= hi,
{
    let mut p: usize = lo;
    while p < hi && s[p] == b
        invariant
            lo <= p <= hi <= s.len(),
            skip_run(s@, p as int, hi as int, b) == skip_run(s@, lo as int, hi as int, b),
        decreases hi - p,
    {
        p = p + 1;
    }
    p
}

pub fn skip_alpha_run(s: &[u8], lo: usize, hi: usize) -> (p: usize)
    requires
        lo <= hi <= s.len(),
    ensures
        p == skip_alpha(s@, lo as int, hi as int),
        lo <= p <= hi,
{
    let mut p: usize = lo;
    while p < hi && alpha(s[p])
        invariant
            lo <= p <= hi <= s.len(),
            skip_alpha(s@, p as int, hi as int) == skip_alpha(s@, lo as int, hi as int),
        decreases hi - p,
    {
        p = p + 1;
    }
    p
}

pub fn skip_byte_run_back(s: &[u8], lo: usize, hi: usize, b: u8) -> (p: usize)
    requires
        lo <= hi <= s.len(),
    ensures
        p == skip_run_back(s@, lo as int, hi as int, b),
        lo <= p <= hi,
{
    let mut p: usize = hi;
    while p > lo && s[p - 1] == b
        invariant
            lo <= p <= hi <= s.len(),
            skip_run_back(s@, lo as int, p as int, b) == skip_run_back(
                s@,
                lo as int,
                hi as int,
                b,
            ),
        decreases p - lo,
    {
        p = p - 1;
    }
    p
}


/// The text that `String::from_utf8_lossy` makes of a byte sequence: its
/// decoding where the bytes are valid UTF-8, and otherwise the decoding with
/// U+FFFD in place of each ill-formed part.
pub uninterp spec fn lossy_text(bytes: Seq<u8>) -> Seq<char>;

/// The text that a byte sequence stands for: its decoding where the bytes
/// are valid UTF-8; else what a lossy conversion makes of it.
#[verifier::opaque]
pub open spec fn decoded(bytes: Seq<u8>) -> Seq<char> {
    if valid_utf8(bytes) {
        decode_utf8(bytes)
    } else {
        lossy_text(bytes)
    }
}

/// The text that the bytes of `[lo, hi)` stand for.
pub open spec fn text(s: Seq<u8>, lo: int, hi: int) -> Seq<char> {
    decoded(s.subrange(lo, hi))
}

/// `String::from_utf8_lossy`, made into an owned string. The result is a
/// function of the bytes alone, and for valid UTF-8 it is their decoding;
/// nothing is proved of it here.
#[verifier::external_body]
pub(crate) fn string_from_utf8_lossy(b: &[u8]) -> (r: String)
    ensures
        r@ == lossy_text(b@),
        valid_utf8(b@) ==> r@ == decode_utf8(b@),
{
    String::from_utf8_lossy(b).into_owned()
}

/// The bytes as a string.
pub fn string_from_bytes(b: &[u8]) -> (r: String)
    ensures
        r@ == decoded(b@),
{
    reveal(decoded);
    string_from_utf8_lossy(b)
}

/// The text of a string, taken by way of its bytes, is the string's own.
pub proof fn lemma_decoded_bytes_of_text(t: Seq<char>)
    ensures
        decoded(encode_utf8(t)) == t,
{
    reveal(decoded);
    encode_utf8_valid_utf8(t);
    encode_utf8_decode_utf8(t);
}

/// The bytes of `[lo, hi)` as a string.
pub fn text_of(s: &[u8], lo: usize, hi: usize) -> (r: String)
    requires
        lo <= hi <= s.len(),
    ensures
        r@ == text(s@, lo as int, hi as int),
{
    string_from_bytes(&s[lo..hi])
}

/// Appends the bytes of `[lo, hi)` to `buf`.
pub fn push_range(buf: &mut Vec<u8>, s: &[u8], lo: usize, hi: usize)
    requires
        lo <= hi <= s.len(),
    ensures
        final(buf)@ == old(buf)@ + s@.subrange(lo as int, hi as int),
{
    buf.extend_from_slice(&s[lo..hi]);
}

/// The value of the decimal digits of `[lo, hi)`.
pub open spec fn digits_value(s: Seq<u8>, lo: int, hi: int) -> int
    decreases hi - lo,
{
    if hi <= lo || !(0 <= lo && hi <= s.len()) {
        0
    } else {
        digits_value(s, lo, hi - 1) * 10 + (s[hi - 1] - 48)
    }
}

pub open spec fn all_digits(s: Seq<u8>, lo: int, hi: int) -> bool {
    forall|k: int| lo <= k < hi ==> is_digit(#[trigger] s[k])
}

/// What `[lo, hi)` reads as an unsigned decimal number: an optional `+`, then
/// one digit or more, with a value that fits in 32 bits.
pub open spec fn decimal_u32(s: Seq<u8>, lo: int, hi: int) -> Option<u32> {
    let start = if lo < hi && s[lo] == 43 { lo + 1 } else { lo };
    if in_range(s, lo, hi) && start < hi && all_digits(s, start, hi) && digits_value(s, start, hi)
        <= u32::MAX {
        Some(digits_value(s, start, hi) as u32)
    } else {
        None
    }
}

pub proof fn lemma_digits_value_grows(s: Seq<u8>, lo: int, mid: int, hi: int)
    requires
        0 <= lo <= mid <= hi <= s.len(),
        all_digits(s, lo, hi),
    ensures
        0 <= digits_value(s, lo, mid) <= digits_value(s, lo, hi),
    decreases hi - mid,
{
    lemma_digits_value_nonneg(s, lo, mid);
    if mid < hi {
        lemma_digits_value_grows(s, lo, mid, hi - 1);
        lemma_digits_value_nonneg(s, lo, hi - 1);
        assert(is_digit(s[hi - 1]));
    }
}

pub proof fn lemma_digits_value_nonneg(s: Seq<u8>, lo: int, hi: int)
    requires
        0 <= lo <= hi <= s.len(),
        all_digits(s, lo, hi),
    ensures
        0 <= digits_value(s, lo, hi),
    decreases hi - lo,
{
    if lo < hi {
        lemma_digits_value_nonneg(s, lo, hi - 1);
        assert(is_digit(s[hi - 1]));
    }
}

/// Reads `[lo, hi)` as an unsigned decimal number.
pub fn parse_u32(s: &[u8], lo: usize, hi: usize) -> (r: Option<u32>)
    requires
        lo <= hi <= s.len(),
    ensures
        r == decimal_u32(s@, lo as int, hi as int),
{
    let start: usize = if lo < hi && s[lo] == 43 { lo + 1 } else { lo };
    if start >= hi {
        return None;
    }
    let mut acc: u64 = 0;
    let mut i: usize = start;
    while i < hi
        invariant
            lo <= start <= i <= hi <= s.len(),
            start < hi,
            start as int == (if lo < hi && s@[lo as int] == 43 {
                lo + 1
            } else {
                lo as int
            }),
            all_digits(s@, start as int, i as int),
            acc == digits_value(s@, start as int, i as int),
            acc <= u32::MAX,
        decreases hi - i,
    {
        let b = s[i];
        if !(48 <= b && b <= 57) {
            assert(!all_digits(s@, start as int, hi as int));
            return None;
        }
        let next: u64 = acc * 10 + (b - 48) as u64;
        if next > 0xffff_ffff {
            proof {
                if all_digits(s@, start as int, hi as int) {
                    lemma_digits_value_grows(s@, start as int, i + 1, hi as int);
                }
            }
            return None;
        }
        acc = next;
        i = i + 1;
    }
    Some(acc as u32)
}


/// What `[lo, hi)` reads as an unsigned decimal number of machine size: an
/// optional `+`, then one digit or more, with a value that fits.
pub open spec fn decimal_usize(s: Seq<u8>, lo: int, hi: int) -> Option<usize> {
    let start = if lo < hi && s[lo] == 43 { lo + 1 } else { lo };
    if in_range(s, lo, hi) && start < hi && all_digits(s, start, hi) && digits_value(s, start, hi)
        <= usize::MAX {
        Some(digits_value(s, start, hi) as usize)
    } else {
        None
    }
}

/// Reads `[lo, hi)` as an unsigned decimal number of machine size.
pub fn parse_usize(s: &[u8], lo: usize, hi: usize) -> (r: Option<usize>)
    requires
        lo <= hi <= s.len(),
    ensures
        r == decimal_usize(s@, lo as int, hi as int),
{
    let start: usize = if lo < hi && s[lo] == 43 { lo + 1 } else { lo };
    if start >= hi {
        return None;
    }
    let mut acc: usize = 0;
    let mut i: usize = start;
    while i < hi
        invariant
            lo <= start <= i <= hi <= s.len(),
            start < hi,
            start as int == (if lo < hi && s@[lo as int] == 43 {
                lo + 1
            } else {
                lo as int
            }),
            all_digits(s@, start as int, i as int),
            acc == digits_value(s@, start as int, i as int),
        decreases hi - i,
    {
        let b = s[i];
        if !(48 <= b && b <= 57) {
            assert(!all_digits(s@, start as int, hi as int));
            return None;
        }
        let d: usize = (b - 48) as usize;
        if acc > (usize::MAX - d) / 10 {
            proof {
                if all_digits(s@, start as int, hi as int) {
                    lemma_digits_value_grows(s@, start as int, i + 1, hi as int);
                }
            }
            return None;
        }
        acc = acc * 10 + d;
        i = i + 1;
    }
    Some(acc)
}

} // verus!
