//! Regular expressions, through the `regex` crate.
//!
//! What a pattern matches is not modelled here: each call has a name for its
//! result, and the conversions are stated over those names.

use crate::ast::diagnostic::opt_string_view;
use crate::emit::copy_bytes;
use crate::text::{decoded, string_from_bytes};
use vstd::prelude::*;
use vstd::string::*;
use vstd::utf8::encode_utf8;

verus! {

/// `text` with every match of `pattern` replaced by `rep`, in which `$1`,
/// `$name` and the like stand for what the groups matched; none where the
/// pattern is no regular expression.
pub uninterp spec fn regex_replace_all_of(pattern: Seq<char>, text: Seq<char>, rep: Seq<char>)
    -> Option<Seq<char>>;

/// The matches of `pattern` in `text`, from left to right: for each match,
/// the byte range of each of its groups (the whole match first), where the
/// group took part; none where the pattern is no regular expression.
pub uninterp spec fn regex_captures_of(pattern: Seq<char>, text: Seq<char>) -> Option<
    Seq<Seq<Option<(int, int)>>>,
>;

/// `Regex::new` and `Regex::replace_all` with a replacement string. The
/// result is a function of the three strings. Nothing is proved of it here.
#[verifier::external_body]
pub(crate) fn regex_replace_all(pattern: &str, text: &str, rep: &str) -> (r: Option<String>)
    ensures
        opt_string_view(r) == regex_replace_all_of(pattern@, text@, rep@),
{
    match regex::Regex::new(pattern) {
        Ok(re) => Some(re.replace_all(text, rep).into_owned()),
        Err(_) => None,
    }
}

pub open spec fn group_view(g: Option<(usize, usize)>) -> Option<(int, int)> {
    match g {
        Some((a, b)) => Some((a as int, b as int)),
        None => None,
    }
}

pub open spec fn groups_view(m: Seq<Option<(usize, usize)>>) -> Seq<Option<(int, int)>> {
    Seq::new(m.len(), |i: int| group_view(m[i]))
}

pub open spec fn matches_view(ms: Seq<Vec<Option<(usize, usize)>>>) -> Seq<
    Seq<Option<(int, int)>>,
> {
    Seq::new(ms.len(), |i: int| groups_view(ms[i]@))
}

pub open spec fn opt_matches_view(r: Option<Vec<Vec<Option<(usize, usize)>>>>) -> Option<
    Seq<Seq<Option<(int, int)>>>,
> {
    match r {
        Some(ms) => Some(matches_view(ms@)),
        None => None,
    }
}

/// `Regex::new` and `Regex::captures_iter`, each match as the byte ranges of
/// its groups. The result is a function of the two strings; every range has
/// its ends in order and lies in the text. Nothing is proved of it here.
#[verifier::external_body]
pub(crate) fn regex_captures_all(pattern: &str, text: &str) -> (r: Option<
    Vec<Vec<Option<(usize, usize)>>>,
>)
    ensures
        opt_matches_view(r) == regex_captures_of(pattern@, text@),
        r matches Some(ms) ==> forall|m: int, g: int|
            0 <= m < ms@.len() && 0 <= g < ms@[m]@.len() ==> match #[trigger] ms@[m]@[g] {
                Some((a, b)) => a <= b <= text.spec_bytes().len(),
                None => true,
            },
{
    match regex::Regex::new(pattern) {
        Ok(re) => Some(
            re.captures_iter(text).map(
                |c| (0..c.len()).map(|i| c.get(i).map(|m| (m.start(), m.end()))).collect(),
            ).collect(),
        ),
        Err(_) => None,
    }
}

/// The bytes of the text that a byte sequence stands for: the sequence
/// itself where it is valid UTF-8.
pub open spec fn normal(text: Seq<u8>) -> Seq<u8> {
    encode_utf8(decoded(text))
}

/// `text` with every match of `pattern` replaced by `rep`; `text` as it is
/// where the pattern is no regular expression.
pub open spec fn resub(pattern: Seq<char>, text: Seq<u8>, rep: Seq<char>) -> Seq<u8> {
    match regex_replace_all_of(pattern, decoded(text), rep) {
        Some(t) => encode_utf8(t),
        None => text,
    }
}

/// Replaces every match of `pattern` in `text` by `rep`.
pub fn re_sub(pattern: &str, text: Vec<u8>, rep: &str) -> (out: Vec<u8>)
    ensures
        out@ == resub(pattern@, text@, rep@),
{
    let s = string_from_bytes(text.as_slice());
    match regex_replace_all(pattern, s.as_str(), rep) {
        Some(t) => copy_bytes(t.as_str().as_bytes()),
        None => text,
    }
}

/// The matches of `pattern` in `text`; none where the pattern is no regular
/// expression.
pub open spec fn rematches(pattern: Seq<char>, text: Seq<u8>) -> Seq<Seq<Option<(int, int)>>> {
    match regex_captures_of(pattern, decoded(text)) {
        Some(ms) => ms,
        None => Seq::empty(),
    }
}

/// A text and the matches of a pattern in it.
pub struct Found {
    pub hay: Vec<u8>,
    pub matches: Vec<Vec<Option<(usize, usize)>>>,
}

/// Every range of every match lies in a text of `len` bytes.
pub open spec fn matches_within(ms: Seq<Vec<Option<(usize, usize)>>>, len: int) -> bool {
    forall|m: int, g: int|
        0 <= m < ms.len() && 0 <= g < ms[m]@.len() ==> match #[trigger] ms[m]@[g] {
            Some((a, b)) => a <= b <= len,
            None => true,
        }
}

/// Finds the matches of `pattern` in `text`.
pub fn re_matches(pattern: &str, text: &[u8]) -> (f: Found)
    ensures
        f.hay@ == normal(text@),
        matches_view(f.matches@) == rematches(pattern@, text@),
        matches_within(f.matches@, f.hay@.len() as int),
{
    let s = string_from_bytes(text);
    let hay = copy_bytes(s.as_str().as_bytes());
    match regex_captures_all(pattern, s.as_str()) {
        Some(ms) => Found { hay, matches: ms },
        None => {
            let matches: Vec<Vec<Option<(usize, usize)>>> = Vec::new();
            assert(matches_view(matches@) =~= Seq::empty());
            Found { hay, matches }
        },
    }
}

} // verus!
