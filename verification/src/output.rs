//! What is written for a page: its identifier, its place, and its Markdown
//! file with the front matter before the body.

use crate::convert::inline::{dir_of, lower_first_letter_dir};
use crate::emit::{copy_bytes, replace_byte, replaced};
use crate::ast::blocks::Document;
use crate::ast::diagnostic::opt_string_view;
use crate::frontmatter::merge::{
    kept_extras, kept_of, kept_summary, merge_existing_frontmatter_for_regeneration,
};
use crate::frontmatter::page::{build_frontmatter, tags_of, texts_of, title_of};
use crate::frontmatter::tags::targets_view;
use crate::frontmatter::{frontmatter_end, split_yaml_frontmatter, Frontmatter};
use crate::render::inline::without_trailing;
use crate::parse::inline::lit;
use crate::render::inline::{lemma_space_lit, trimmed, trimmed_copy};
use crate::text::{decoded, string_from_bytes, CR, NL, SLASH, SPACE, UNDERSCORE};
use vstd::prelude::*;
use vstd::string::*;
use vstd::utf8::encode_utf8;

verus! {

/// How Markdown files are written.
#[derive(Debug, Clone, Copy, PartialEq, Eq, Structural)]
pub struct WriteOptions {
    /// Write the front matter anew even where the file has one.
    pub regenerate_frontmatter: bool,
}

impl Default for WriteOptions {
    fn default() -> (o: WriteOptions)
        ensures
            !o.regenerate_frontmatter,
    {
        WriteOptions { regenerate_frontmatter: false }
    }
}

/// The identifier of a page: its title without the white space at its ends,
/// with `_` for each space, slash and backslash; `Untitled` where nothing is
/// left.
pub open spec fn article_id_of(title: Seq<u8>) -> Seq<u8> {
    let id = replaced(
        replaced(replaced(trimmed(title), SPACE, seq![UNDERSCORE]), 47, seq![UNDERSCORE]),
        92,
        seq![UNDERSCORE],
    );
    if id.len() == 0 {
        lit("Untitled")
    } else {
        id
    }
}

pub fn sanitize_article_id(raw_title: &str) -> (id: String)
    ensures
        id@ == decoded(article_id_of(raw_title.spec_bytes())),
{
    proof {
        lemma_space_lit();
    }
    let t = trimmed_copy(raw_title.as_bytes());
    let a = replace_byte(t.as_slice(), SPACE, "_".as_bytes());
    let b = replace_byte(a.as_slice(), 47, "_".as_bytes());
    let c = replace_byte(b.as_slice(), 92, "_".as_bytes());
    if c.len() == 0 {
        string_from_bytes("Untitled".as_bytes())
    } else {
        string_from_bytes(c.as_slice())
    }
}

/// The directory that a page is filed under: its first character in lower
/// case, or `x`.
pub fn lower_first_letter_bucket(article_id: &str) -> (bucket: String)
    ensures
        bucket@ == decoded(dir_of(article_id.spec_bytes())),
{
    let d = lower_first_letter_dir(article_id.as_bytes());
    string_from_bytes(d.as_slice())
}

/// What one run for a page does, step by step.
#[derive(Debug, Clone, Copy, PartialEq, Eq, Structural)]
pub enum RunStep {
    /// Print the Markdown that is there.
    PrintExisting,
    /// Fetch the page's source.
    FetchSource,
    /// Parse the source and write the tree as JSON.
    WriteJson,
    /// Render the Markdown from the JSON that was written.
    RenderFromJson,
    /// Render the Markdown from the tree.
    RenderFromTree,
}

/// The steps of a run: Markdown that is there is printed and nothing else
/// is done; else the source is fetched unless it is there, and the Markdown
/// is rendered, by way of the JSON where that is asked for.
pub open spec fn run_steps(md_exists: bool, wiki_exists: bool, write_json: bool) -> Seq<RunStep> {
    if md_exists {
        seq![RunStep::PrintExisting]
    } else {
        (if wiki_exists {
            Seq::empty()
        } else {
            seq![RunStep::FetchSource]
        }) + (if write_json {
            seq![RunStep::WriteJson, RunStep::RenderFromJson]
        } else {
            seq![RunStep::RenderFromTree]
        })
    }
}

pub fn plan_run(md_exists: bool, wiki_exists: bool, write_json: bool) -> (steps: Vec<RunStep>)
    ensures
        steps@ == run_steps(md_exists, wiki_exists, write_json),
{
    let mut steps: Vec<RunStep> = Vec::new();
    if md_exists {
        steps.push(RunStep::PrintExisting);
        assert(steps@ =~= run_steps(md_exists, wiki_exists, write_json));
        return steps;
    }
    if !wiki_exists {
        steps.push(RunStep::FetchSource);
    }
    if write_json {
        steps.push(RunStep::WriteJson);
        steps.push(RunStep::RenderFromJson);
    } else {
        steps.push(RunStep::RenderFromTree);
    }
    assert(steps@ =~= run_steps(md_exists, wiki_exists, write_json));
    steps
}

/// The front matter that is kept: that of the file that is there, unless the
/// front matter is to be written anew.
pub open spec fn kept_frontmatter(existing: Option<Seq<u8>>, regenerate: bool) -> Option<Seq<u8>> {
    match existing {
        Some(text) => match frontmatter_end(text) {
            Some(e) => if regenerate {
                None
            } else {
                Some(text.subrange(0, e))
            },
            None => None,
        },
        None => None,
    }
}

pub open spec fn opt_str_utf8(s: Option<&str>) -> Option<Seq<u8>> {
    match s {
        Some(v) => Some(v.spec_bytes()),
        None => None,
    }
}

/// Picks the front matter that is kept as it stands, if any.
pub fn keep_frontmatter(existing: Option<&str>, opts: &WriteOptions) -> (r: Option<String>)
    ensures
        match r {
            Some(fm) => kept_frontmatter(opt_str_utf8(existing), opts.regenerate_frontmatter)
                matches Some(b) && encode_utf8(fm@) == b,
            None => kept_frontmatter(opt_str_utf8(existing), opts.regenerate_frontmatter) is None,
        },
{
    match existing {
        Some(text) => match split_yaml_frontmatter(text) {
            Some((fm, _rest)) => if opts.regenerate_frontmatter {
                None
            } else {
                Some(fm)
            },
            None => None,
        },
        None => None,
    }
}

/// What goes over into front matter that is made anew from the file that is
/// there: its summary and its other keys, where the front matter is to be
/// written anew and the file has one that is a YAML mapping.
pub open spec fn carried_over(existing: Option<Seq<u8>>, regenerate: bool) -> Option<
    (Option<Seq<char>>, Option<Seq<char>>),
> {
    match existing {
        Some(text) => if regenerate {
            kept_of(text)
        } else {
            None
        },
        None => None,
    }
}

/// Makes the front matter of a page anew: built from the page, with the
/// summary and the other keys of the file that is there where the front
/// matter is to be written anew.
pub fn fresh_frontmatter(
    article_id: &str,
    last_fetched_date: &str,
    doc: &Document,
    mediawiki_base_url: &str,
    existing: Option<&str>,
    opts: &WriteOptions,
) -> (f: Frontmatter)
    ensures
        f.wiki2md.article_id@ == article_id@,
        f.wiki2md.source_url@ == decoded(
            without_trailing(mediawiki_base_url.spec_bytes(), SLASH) + lit("/")
                + article_id.spec_bytes(),
        ),
        f.wiki2md.generated_by@ == "wiki2md"@,
        f.wiki2md.last_fetched_date@ == last_fetched_date@,
        f.wiki2md.schema_version == 1,
        targets_view(f.aliases@) == seq![decoded(title_of(article_id.spec_bytes()))],
        targets_view(f.tags@) == texts_of(tags_of(doc@, article_id.spec_bytes())),
        opt_string_view(f.summary) == (match carried_over(
            opt_str_utf8(existing),
            opts.regenerate_frontmatter,
        ) {
            Some((summary, _)) => kept_summary(None, summary),
            None => None,
        }),
        opt_string_view(f.extras_yaml) == (match carried_over(
            opt_str_utf8(existing),
            opts.regenerate_frontmatter,
        ) {
            Some((_, others)) => kept_extras(None, others),
            None => None,
        }),
{
    let mut f = build_frontmatter(article_id, last_fetched_date, doc, mediawiki_base_url);
    if opts.regenerate_frontmatter {
        match existing {
            Some(text) => {
                merge_existing_frontmatter_for_regeneration(&mut f, text);
            },
            None => {},
        }
    }
    f
}

/// The first position of `s` that holds neither a newline nor a carriage
/// return.
pub open spec fn body_start(s: Seq<u8>, i: int) -> int
    decreases s.len() - i,
{
    if 0 <= i < s.len() && (s[i] == NL || s[i] == CR) {
        body_start(s, i + 1)
    } else {
        i
    }
}

/// A Markdown file: the front matter, a blank line, and the body without
/// the line ends that it starts with.
pub open spec fn markdown_file(frontmatter: Seq<u8>, body: Seq<u8>) -> Seq<u8> {
    frontmatter + (if frontmatter.len() > 0 && frontmatter[frontmatter.len() - 1] == NL {
        seq![NL]
    } else {
        seq![NL, NL]
    }) + body.subrange(body_start(body, 0), body.len() as int)
}

/// Puts a Markdown file together.
pub fn assemble_markdown(frontmatter: &str, md_body: &str) -> (out: String)
    ensures
        out@ == decoded(markdown_file(frontmatter.spec_bytes(), md_body.spec_bytes())),
{
    let fm = frontmatter.as_bytes();
    let body = md_body.as_bytes();
    let mut out = copy_bytes(fm);
    if !(fm.len() > 0 && fm[fm.len() - 1] == NL) {
        out.push(NL);
    }
    out.push(NL);
    let mut from: usize = 0;
    while from < body.len() && (body[from] == NL || body[from] == CR)
        invariant
            from <= body.len(),
            body_start(body@, from as int) == body_start(body@, 0),
        decreases body.len() - from,
    {
        from = from + 1;
    }
    out.extend_from_slice(&body[from..body.len()]);
    assert(out@ =~= markdown_file(fm@, body@));
    string_from_bytes(out.as_slice())
}

} // verus!
