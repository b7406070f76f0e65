//! The address of a page's edit form, and the page source inside the form.
//!
//! Addresses are built by the `url` crate (as `reqwest` hands it on), the
//! form is read by `scraper`, and character references are resolved by
//! `html-escape`. What they compute is not modelled here: each call has a
//! name for its result.

use crate::ast::diagnostic::opt_string_view;
use crate::text::{find_byte, first_byte, HASH};
use vstd::prelude::*;
use vstd::string::*;
use vstd::utf8::encode_utf8;

verus! {

/// The address of the wiki's entry script.
pub const INDEX_URL: &'static str = "https://www.chessprogramming.org/index.php";

/// The selector of the text area that holds the page source.
pub const SOURCE_SELECTOR: &'static str = "textarea#wpTextbox1";

/// The selector of any text area.
pub const ANY_SELECTOR: &'static str = "textarea";

/// `url`, parsed and written out again with the pair `key=value` added to
/// its query; none where `url` is no address.
pub uninterp spec fn url_with_pair_of(url: Seq<char>, key: Seq<char>, value: Seq<char>) -> Option<
    Seq<char>,
>;

/// The inner HTML of the first element of the document `html` that
/// `selector` selects, in document order: none inside where it selects no
/// element, none outside where `selector` is no selector.
pub uninterp spec fn first_inner_html_of(html: Seq<char>, selector: Seq<char>) -> Option<
    Option<Seq<char>>,
>;

/// `text` with its character references resolved.
pub uninterp spec fn entities_decoded_of(text: Seq<char>) -> Seq<char>;

/// No `#` stands in the text.
pub open spec fn no_hash(text: Seq<char>) -> bool {
    first_byte(encode_utf8(text), 0, encode_utf8(text).len() as int, HASH) is None
}

/// `Url::parse`, `Url::query_pairs_mut` with one `append_pair`, and the
/// address written out. The result is a function of the three strings.
/// Nothing is proved of it here. An address with a fragment is left out: on
/// one that has grown past what 32 bits count, putting the fragment back
/// panics.
#[verifier::external_body]
pub(crate) fn url_with_pair(url: &str, key: &str, value: &str) -> (r: Option<String>)
    requires
        no_hash(url@),
    ensures
        opt_string_view(r) == url_with_pair_of(url@, key@, value@),
{
    match reqwest::Url::parse(url) {
        Ok(mut u) => {
            u.query_pairs_mut().append_pair(key, value);
            Some(String::from(u))
        },
        Err(_) => None,
    }
}

/// `Html::parse_document`, `Selector::parse`, `Html::select` and
/// `ElementRef::inner_html` of the first element selected. The result is a
/// function of the two strings. Nothing is proved of it here.
#[verifier::external_body]
pub(crate) fn first_inner_html(html: &str, selector: &str) -> (r: Result<Option<String>, ()>)
    ensures
        match r {
            Ok(found) => first_inner_html_of(html@, selector@) == Some(opt_string_view(found)),
            Err(_) => first_inner_html_of(html@, selector@) is None,
        },
{
    match scraper::Selector::parse(selector) {
        Ok(sel) => Ok(scraper::Html::parse_document(html).select(&sel).next().map(|e| e.inner_html())),
        Err(_) => Err(()),
    }
}

/// `html_escape::decode_html_entities`, made into an owned string. The
/// result is a function of the text alone. Nothing is proved of it here.
#[verifier::external_body]
pub(crate) fn decode_entities(text: &str) -> (r: String)
    ensures
        r@ == entities_decoded_of(text@),
{
    html_escape::decode_html_entities(text).into_owned()
}

/// Why no page source came out of an edit form.
#[derive(Debug, PartialEq, Eq, Clone, Copy)]
pub enum ExtractError {
    /// A selector was refused.
    Selector,
    /// The document holds no text area.
    NoTextArea,
}

impl ExtractError {
    /// The error in words.
    pub fn message(&self) -> (r: &'static str)
        ensures
            r@ == (match *self {
                ExtractError::Selector => "Invalid selector"@,
                ExtractError::NoTextArea => "Could not find <textarea> element. Is the page valid?"@,
            }),
    {
        match self {
            ExtractError::Selector => "Invalid selector",
            ExtractError::NoTextArea => "Could not find <textarea> element. Is the page valid?",
        }
    }
}

/// `url` with one pair more in its query, where `url` holds no `#`.
pub open spec fn with_pair(url: Seq<char>, key: Seq<char>, value: Seq<char>) -> Option<Seq<char>> {
    if no_hash(url) {
        url_with_pair_of(url, key, value)
    } else {
        None
    }
}

/// Adds the pair `key=value` to the query of `url`. None where `url` is no
/// address, or holds a `#`.
pub fn add_query_pair(url: &str, key: &str, value: &str) -> (r: Option<String>)
    ensures
        opt_string_view(r) == with_pair(url@, key@, value@),
{
    let bytes = url.as_bytes();
    match find_byte(bytes, 0, bytes.len(), HASH) {
        Some(_) => None,
        None => url_with_pair(url, key, value),
    }
}

/// The address of the edit form of the page `title`: the entry script with
/// `title=` the title, then `action=edit`, in its query.
pub open spec fn edit_url_of(title: Seq<char>) -> Option<Seq<char>> {
    match with_pair(INDEX_URL@, "title"@, title) {
        Some(u) => with_pair(u, "action"@, "edit"@),
        None => None,
    }
}

/// The address of the edit form of the page `title`.
pub fn build_edit_url(title: &str) -> (r: Option<String>)
    ensures
        opt_string_view(r) == edit_url_of(title@),
{
    match add_query_pair(INDEX_URL, "title", title) {
        Some(u) => add_query_pair(u.as_str(), "action", "edit"),
        None => None,
    }
}

/// The page source, given what the two selectors found: the content of the
/// text area of the source with its character references resolved, or that
/// of the first text area where the document has no such area.
pub open spec fn source_from(
    primary: Option<Option<Seq<char>>>,
    fallback: Option<Option<Seq<char>>>,
) -> Result<Seq<char>, ExtractError> {
    match (primary, fallback) {
        (Some(Some(t)), Some(_)) => Ok(entities_decoded_of(t)),
        (Some(None), Some(Some(t))) => Ok(entities_decoded_of(t)),
        (Some(None), Some(None)) => Err(ExtractError::NoTextArea),
        _ => Err(ExtractError::Selector),
    }
}

pub open spec fn found_view(r: Result<Option<String>, ()>) -> Option<Option<Seq<char>>> {
    match r {
        Ok(found) => Some(opt_string_view(found)),
        Err(_) => None,
    }
}

pub open spec fn source_view(r: Result<String, ExtractError>) -> Result<Seq<char>, ExtractError> {
    match r {
        Ok(t) => Ok(t@),
        Err(e) => Err(e),
    }
}

/// Picks the page source out of what the two selectors found.
pub fn pick_source(primary: Result<Option<String>, ()>, fallback: Result<Option<String>, ()>) -> (r:
    Result<String, ExtractError>)
    ensures
        source_view(r) == source_from(found_view(primary), found_view(fallback)),
{
    match (primary, fallback) {
        (Ok(Some(t)), Ok(_)) => Ok(decode_entities(t.as_str())),
        (Ok(None), Ok(Some(t))) => Ok(decode_entities(t.as_str())),
        (Ok(None), Ok(None)) => Err(ExtractError::NoTextArea),
        _ => Err(ExtractError::Selector),
    }
}

/// The page source inside the HTML of an edit form.
pub fn extract_wiki_text_from_edit_html(html_body: &str) -> (r: Result<String, ExtractError>)
    ensures
        source_view(r) == source_from(
            first_inner_html_of(html_body@, SOURCE_SELECTOR@),
            first_inner_html_of(html_body@, ANY_SELECTOR@),
        ),
{
    let primary = first_inner_html(html_body, SOURCE_SELECTOR);
    let fallback = first_inner_html(html_body, ANY_SELECTOR);
    pick_source(primary, fallback)
}

} // verus!
