//! Keeping what a reader wrote into a page's front matter when the front
//! matter is made anew.
//!
//! The front matter that a page had is read as YAML by `serde_yaml`. What
//! it reads and writes is not modelled here: each call has a name for its
//! result.

use crate::ast::diagnostic::opt_string_view;
use crate::frontmatter::{
    extract_yaml_inner, frontmatter_end, markers_stripped, split_yaml_frontmatter,
    strip_yaml_document_markers, yaml_inner, Frontmatter,
};
use crate::text::{blank, decoded, is_blank, string_from_bytes};
use vstd::prelude::*;
use vstd::string::*;
use vstd::utf8::encode_utf8;

verus! {

/// The string that the YAML mapping `text` holds at its top-level key `key`:
/// none where `text` is no YAML mapping, has no such key, or holds something
/// else than a string there.
pub uninterp spec fn yaml_string_of(text: Seq<char>, key: Seq<char>) -> Option<Seq<char>>;

/// The YAML mapping `text` without its top-level key `key`: the number of
/// keys that are left, and what is left written as YAML (none where it
/// cannot be written); none where `text` is no YAML mapping.
pub uninterp spec fn yaml_without_of(text: Seq<char>, key: Seq<char>) -> Option<
    (nat, Option<Seq<char>>),
>;

pub open spec fn rest_view(r: Option<(usize, Option<String>)>) -> Option<(nat, Option<Seq<char>>)> {
    match r {
        Some((n, t)) => Some((n as nat, opt_string_view(t))),
        None => None,
    }
}

/// `serde_yaml::from_str` to a `Value`, and `Mapping::get` on the mapping
/// that it is. The result is a function of the two strings. Nothing is
/// proved of it here.
#[verifier::external_body]
pub(crate) fn yaml_string_at(text: &str, key: &str) -> (r: Option<String>)
    ensures
        opt_string_view(r) == yaml_string_of(text@, key@),
{
    match serde_yaml::from_str::<serde_yaml::Value>(text) {
        Ok(serde_yaml::Value::Mapping(map)) => match map.get(key) {
            Some(serde_yaml::Value::String(s)) => Some(s.clone()),
            _ => None,
        },
        _ => None,
    }
}

/// `serde_yaml::from_str` to a `Value`, `Mapping::remove` and `Mapping::len`
/// on the mapping that it is, and `serde_yaml::to_string` of what is left.
/// The result is a function of the two strings. Nothing is proved of it
/// here.
#[verifier::external_body]
pub(crate) fn yaml_without(text: &str, key: &str) -> (r: Option<(usize, Option<String>)>)
    ensures
        rest_view(r) == yaml_without_of(text@, key@),
{
    match serde_yaml::from_str::<serde_yaml::Value>(text) {
        Ok(serde_yaml::Value::Mapping(mut map)) => {
            map.remove(key);
            Some((map.len(), serde_yaml::to_string(&serde_yaml::Value::Mapping(map)).ok()))
        },
        _ => None,
    }
}

/// What is left after one key more is taken out: of a mapping that could
/// not be written nothing more is taken.
pub open spec fn after_key(cur: Option<(nat, Option<Seq<char>>)>, key: Seq<char>) -> Option<
    (nat, Option<Seq<char>>),
> {
    match cur {
        Some((_, Some(t))) => yaml_without_of(t, key),
        _ => cur,
    }
}

/// The YAML mapping `inner` without the keys that the front matter writes
/// itself: `wiki2md`, `aliases`, `tags` and `summary`.
pub open spec fn others_of(inner: Seq<char>) -> Option<(nat, Option<Seq<char>>)> {
    after_key(
        after_key(after_key(yaml_without_of(inner, "wiki2md"@), "aliases"@), "tags"@),
        "summary"@,
    )
}

fn drop_key(cur: Option<(usize, Option<String>)>, key: &str) -> (r: Option<(usize, Option<String>)>)
    ensures
        rest_view(r) == after_key(rest_view(cur), key@),
{
    match cur {
        Some((_, Some(t))) => yaml_without(t.as_str(), key),
        other => other,
    }
}

/// The YAML between the two `---` lines of the front matter that `existing`
/// starts with; none where it starts with none.
pub open spec fn inner_text(existing: Seq<u8>) -> Option<Seq<char>> {
    match frontmatter_end(existing) {
        Some(e) => match yaml_inner(existing.subrange(0, e)) {
            Some(inner) => Some(decoded(inner)),
            None => None,
        },
        None => None,
    }
}

/// What is kept of the front matter that `existing` starts with: its
/// summary, where it has one, and its other keys as YAML, where it has any.
/// None where `existing` starts with no front matter, or with one that is no
/// YAML mapping.
pub open spec fn kept_of(existing: Seq<u8>) -> Option<(Option<Seq<char>>, Option<Seq<char>>)> {
    match inner_text(existing) {
        Some(inner) => match others_of(inner) {
            Some((n, rest)) => Some(
                (
                    yaml_string_of(inner, "summary"@),
                    if n == 0 {
                        None
                    } else {
                        Some(
                            match rest {
                                Some(t) => t,
                                None => Seq::empty(),
                            },
                        )
                    },
                ),
            ),
            None => None,
        },
        None => None,
    }
}

/// The summary after a merge: the one that was there before, unless one
/// that is not blank is given.
pub open spec fn kept_summary(before: Option<Seq<char>>, given: Option<Seq<char>>) -> Option<
    Seq<char>,
> {
    match given {
        Some(s) => if is_blank(encode_utf8(s), 0, encode_utf8(s).len() as int) {
            before
        } else {
            Some(s)
        },
        None => before,
    }
}

/// The other keys after a merge: none where none are given; else those
/// given, without document markers, unless that leaves them blank.
pub open spec fn kept_extras(before: Option<Seq<char>>, given: Option<Seq<char>>) -> Option<
    Seq<char>,
> {
    match given {
        None => None,
        Some(y) => {
            let e = markers_stripped(encode_utf8(y));
            if is_blank(e, 0, e.len() as int) {
                before
            } else {
                Some(decoded(e))
            }
        },
    }
}

pub open spec fn opt_str_view(s: Option<&str>) -> Option<Seq<char>> {
    match s {
        Some(v) => Some(v@),
        None => None,
    }
}

/// Takes over a summary, unless it is blank, and the other keys of a page's
/// front matter.
///
/// `others_yaml` is the YAML of the keys that the front matter does not
/// write itself, none where there is no such key.
pub fn merge_kept(generated: &mut Frontmatter, summary: Option<&str>, others_yaml: Option<&str>)
    ensures
        final(generated).wiki2md == old(generated).wiki2md,
        final(generated).aliases == old(generated).aliases,
        final(generated).tags == old(generated).tags,
        opt_string_view(final(generated).summary) == kept_summary(
            opt_string_view(old(generated).summary),
            opt_str_view(summary),
        ),
        opt_string_view(final(generated).extras_yaml) == kept_extras(
            opt_string_view(old(generated).extras_yaml),
            opt_str_view(others_yaml),
        ),
{
    match summary {
        Some(s) => {
            let sb = s.as_bytes();
            if !blank(sb, 0, sb.len()) {
                generated.summary = Some(s.to_owned());
            }
        },
        None => {},
    }
    match others_yaml {
        None => {
            generated.extras_yaml = None;
        },
        Some(y) => {
            let e = strip_yaml_document_markers(y.as_bytes());
            if !blank(e.as_slice(), 0, e.len()) {
                generated.extras_yaml = Some(string_from_bytes(e.as_slice()));
            }
        },
    }
}

fn as_opt_str(s: &Option<String>) -> (r: Option<&str>)
    ensures
        opt_str_view(r) == opt_string_view(*s),
{
    match s {
        Some(v) => Some(v.as_str()),
        None => None,
    }
}

/// Reads the YAML between the two `---` lines of the front matter that
/// `existing` starts with.
pub fn read_inner(existing: &str) -> (r: Option<String>)
    ensures
        opt_string_view(r) == inner_text(existing.spec_bytes()),
{
    let (block, _) = match split_yaml_frontmatter(existing) {
        Some(parts) => parts,
        None => {
            return None;
        },
    };
    match extract_yaml_inner(block.as_str().as_bytes()) {
        Some(inner) => Some(string_from_bytes(inner.as_slice())),
        None => None,
    }
}

/// Takes over what is kept of the front matter that a page had: its
/// summary, unless that is blank, and the keys that the front matter does
/// not write itself. Where the page had no front matter, or one that is no
/// YAML mapping, `generated` stays as it is.
pub fn merge_existing_frontmatter_for_regeneration(generated: &mut Frontmatter, existing_yaml: &str)
    ensures
        match kept_of(existing_yaml.spec_bytes()) {
            Some((summary, others)) => {
                &&& final(generated).wiki2md == old(generated).wiki2md
                &&& final(generated).aliases == old(generated).aliases
                &&& final(generated).tags == old(generated).tags
                &&& opt_string_view(final(generated).summary) == kept_summary(
                    opt_string_view(old(generated).summary),
                    summary,
                )
                &&& opt_string_view(final(generated).extras_yaml) == kept_extras(
                    opt_string_view(old(generated).extras_yaml),
                    others,
                )
            },
            None => *final(generated) == *old(generated),
        },
{
    let inner = match read_inner(existing_yaml) {
        Some(inner) => inner,
        None => {
            return ;
        },
    };
    let left = yaml_without(inner.as_str(), "wiki2md");
    let left = drop_key(left, "aliases");
    let left = drop_key(left, "tags");
    let left = drop_key(left, "summary");
    let (n, rest) = match left {
        Some(found) => found,
        None => {
            return ;
        },
    };
    let summary = yaml_string_at(inner.as_str(), "summary");
    let others: Option<String> = if n == 0 {
        None
    } else {
        Some(
            match rest {
                Some(t) => t,
                None => String::new(),
            },
        )
    };
    merge_kept(generated, as_opt_str(&summary), as_opt_str(&others));
}

} // verus!
