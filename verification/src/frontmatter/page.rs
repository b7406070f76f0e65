//! Front matter for a parsed page.

use crate::ast::blocks::{
    block_view, blocks_view, categories_view, BlockKind, BlockKindView, BlockNodeView, CategoryTag,
    CategoryTagView, Document, DocumentView,
};
use crate::ast::nodes::inlines_view;
use crate::emit::{push_str, replace_byte, replaced};
use crate::frontmatter::order::{
    all_inserted, ascending, byte_strings, insert_sorted, inserted_from, lemma_sorted_once,
    sorted_once,
};
use crate::frontmatter::tags::{
    collect_internal_link_targets, link_targets, normalize_tag_bytes, tag_of, targets_view,
};
use crate::frontmatter::{Frontmatter, Wiki2mdMeta};
use crate::parse::inline::lit;
use crate::render::inline::{lemma_space_lit, without_trailing};
use crate::text::{
    eq_ci, equals_ci, decoded, skip_byte_run_back, string_from_bytes, SLASH, SPACE, UNDERSCORE,
};
use vstd::prelude::*;
use vstd::string::*;
use vstd::utf8::encode_utf8;

verus! {

/// The link leads to the main page.
pub open spec fn is_main_page(target: Seq<char>) -> bool {
    equals_ci(encode_utf8(target), 0, encode_utf8(target).len() as int, lit("Main Page"))
}

/// A link to the main page stands among the targets from the `k`-th on.
pub open spec fn has_main_page(targets: Seq<Seq<char>>, k: int) -> bool
    decreases targets.len() - k,
{
    if k < 0 || k >= targets.len() {
        false
    } else {
        is_main_page(targets[k]) || has_main_page(targets, k + 1)
    }
}

/// The links of the breadcrumbs: those of the first paragraph from the
/// `k`-th block on that links to the main page.
pub open spec fn nav_links(blocks: Seq<BlockNodeView>, k: int) -> Option<Seq<Seq<char>>>
    decreases blocks.len() - k,
{
    if k < 0 || k >= blocks.len() {
        None
    } else {
        match blocks[k].kind {
            BlockKindView::Paragraph { content } => if has_main_page(link_targets(content, 0), 0) {
                Some(link_targets(content, 0))
            } else {
                nav_links(blocks, k + 1)
            },
            _ => nav_links(blocks, k + 1),
        }
    }
}

fn links_to_main_page(targets: &Vec<String>) -> (r: bool)
    ensures
        r == has_main_page(targets_view(targets@), 0),
{
    let ghost tv = targets_view(targets@);
    let mut k: usize = 0;
    while k < targets.len()
        invariant
            k <= targets.len(),
            tv == targets_view(targets@),
            has_main_page(tv, k as int) == has_main_page(tv, 0),
        decreases targets.len() - k,
    {
        assert(tv[k as int] == targets@[k as int]@);
        let t = targets[k].as_str().as_bytes();
        if eq_ci(t, 0, t.len(), "Main Page".as_bytes()) {
            return true;
        }
        k = k + 1;
    }
    false
}

pub open spec fn opt_targets_view(r: Option<Vec<String>>) -> Option<Seq<Seq<char>>> {
    match r {
        Some(v) => Some(targets_view(v@)),
        None => None,
    }
}

/// Finds the links of the breadcrumbs.
pub fn find_top_nav_links(doc: &Document) -> (r: Option<Vec<String>>)
    ensures
        opt_targets_view(r) == nav_links(blocks_view(doc.blocks@), 0),
{
    let ghost bv = blocks_view(doc.blocks@);
    let mut k: usize = 0;
    while k < doc.blocks.len()
        invariant
            k <= doc.blocks.len(),
            bv == blocks_view(doc.blocks@),
            nav_links(bv, k as int) == nav_links(bv, 0),
        decreases doc.blocks.len() - k,
    {
        assert(bv[k as int] == block_view(doc.blocks@[k as int]));
        match &doc.blocks[k].kind {
            BlockKind::Paragraph { content } => {
                let mut targets: Vec<String> = Vec::new();
                assert(targets_view(targets@) =~= Seq::empty());
                collect_internal_link_targets(content, &mut targets);
                assert(targets_view(targets@) =~= link_targets(inlines_view(content@), 0));
                if links_to_main_page(&targets) {
                    return Some(targets);
                }
            },
            _ => {},
        }
        k = k + 1;
    }
    None
}

/// The title of a page: its identifier with a space for each `_`.
pub open spec fn title_of(id: Seq<u8>) -> Seq<u8> {
    replaced(id, UNDERSCORE, seq![SPACE])
}

/// The tags that the links from the `k`-th on give: the main page and the
/// page itself give none.
pub open spec fn nav_tags(targets: Seq<Seq<char>>, k: int, article: Seq<u8>) -> Seq<Seq<u8>>
    decreases targets.len() - k,
{
    if k < 0 || k >= targets.len() {
        Seq::empty()
    } else {
        let t = encode_utf8(targets[k]);
        (if is_main_page(targets[k]) || equals_ci(
            title_of(t),
            0,
            title_of(t).len() as int,
            title_of(article),
        ) {
            Seq::empty()
        } else {
            match tag_of(t) {
                Some(tag) => seq![tag],
                None => Seq::empty(),
            }
        }) + nav_tags(targets, k + 1, article)
    }
}

/// A category counts where it stands in the last 8192 bytes of the page.
pub open spec fn at_bottom(start: u64, doc_end: u64) -> bool {
    doc_end <= 8192 || start >= doc_end - 8192
}

/// The tags that the categories from the `k`-th on give.
pub open spec fn category_tags(cats: Seq<CategoryTagView>, k: int, doc_end: u64) -> Seq<Seq<u8>>
    decreases cats.len() - k,
{
    if k < 0 || k >= cats.len() {
        Seq::empty()
    } else {
        (if at_bottom(cats[k].span.start, doc_end) {
            match tag_of(encode_utf8(cats[k].name)) {
                Some(tag) => seq![tag],
                None => Seq::empty(),
            }
        } else {
            Seq::empty()
        }) + category_tags(cats, k + 1, doc_end)
    }
}

/// The tags of a page before they are put in order: those of its
/// breadcrumbs, then those of its categories.
pub open spec fn tag_candidates(doc: DocumentView, article: Seq<u8>) -> Seq<Seq<u8>> {
    (match nav_links(doc.blocks, 0) {
        Some(targets) => nav_tags(targets, 0, article),
        None => Seq::empty(),
    }) + category_tags(doc.categories, 0, doc.span.end)
}

/// The tags of a page: in ascending order, each once.
pub open spec fn tags_of(doc: DocumentView, article: Seq<u8>) -> Seq<Seq<u8>> {
    sorted_once(tag_candidates(doc, article))
}

fn insert_nav_tags(out: &mut Vec<Vec<u8>>, targets: &Vec<String>, article: &[u8])
    ensures
        byte_strings(final(out)@) == all_inserted(
            byte_strings(old(out)@),
            nav_tags(targets_view(targets@), 0, article@),
            0,
        ),
{
    proof {
        lemma_space_lit();
    }
    let ghost tv = targets_view(targets@);
    let ghost s0 = byte_strings(out@);
    let ghost goal = all_inserted(s0, nav_tags(tv, 0, article@), 0);
    let title = replace_byte(article, UNDERSCORE, " ".as_bytes());
    let mut k: usize = 0;
    while k < targets.len()
        invariant
            k <= targets.len(),
            tv == targets_view(targets@),
            title@ == title_of(article@),
            all_inserted(byte_strings(out@), nav_tags(tv, k as int, article@), 0) == goal,
        decreases targets.len() - k,
    {
        assert(tv[k as int] == targets@[k as int]@);
        let ghost here = nav_tags(tv, k as int, article@);
        let ghost rest = nav_tags(tv, k + 1, article@);
        proof {
            lemma_space_lit();
        }
        let t = targets[k].as_str().as_bytes();
        let spaced = replace_byte(t, UNDERSCORE, " ".as_bytes());
        let skip = eq_ci(t, 0, t.len(), "Main Page".as_bytes()) || eq_ci(
            spaced.as_slice(),
            0,
            spaced.len(),
            title.as_slice(),
        );
        let tag = if skip {
            None
        } else {
            normalize_tag_bytes(t)
        };
        match tag {
            Some(x) => {
                assert(here =~= seq![x@] + rest);
                proof {
                    lemma_all_inserted_head(byte_strings(out@), x@, rest);
                }
                insert_sorted(out, x);
            },
            None => {
                assert(here =~= rest);
            },
        }
        k = k + 1;
    }
}

/// Putting in a list that starts with `x` is putting in `x` and then the
/// rest.
pub proof fn lemma_all_inserted_head(s: Seq<Seq<u8>>, x: Seq<u8>, rest: Seq<Seq<u8>>)
    ensures
        all_inserted(s, seq![x] + rest, 0) == all_inserted(inserted_from(s, x, 0), rest, 0),
{
    let items = seq![x] + rest;
    assert(items[0] == x);
    lemma_all_inserted_shift(inserted_from(s, x, 0), items, rest, 0);
}

proof fn lemma_all_inserted_shift(
    s: Seq<Seq<u8>>,
    items: Seq<Seq<u8>>,
    rest: Seq<Seq<u8>>,
    k: int,
)
    requires
        0 <= k <= rest.len(),
        items.len() == rest.len() + 1,
        forall|j: int| 0 <= j < rest.len() ==> items[j + 1] == rest[j],
    ensures
        all_inserted(s, items, k + 1) == all_inserted(s, rest, k),
    decreases rest.len() - k,
{
    if k < rest.len() {
        lemma_all_inserted_shift(inserted_from(s, rest[k], 0), items, rest, k + 1);
    }
}

/// Putting in one list and then another is putting in the two joined.
pub proof fn lemma_all_inserted_concat(
    s: Seq<Seq<u8>>,
    a: Seq<Seq<u8>>,
    b: Seq<Seq<u8>>,
    k: int,
)
    requires
        0 <= k <= a.len(),
    ensures
        all_inserted(all_inserted(s, a, k), b, 0) == all_inserted(s, a + b, k),
    decreases a.len() - k,
{
    if k < a.len() {
        assert((a + b)[k] == a[k]);
        lemma_all_inserted_concat(inserted_from(s, a[k], 0), a, b, k + 1);
    } else {
        lemma_all_inserted_tail(s, a, b, 0);
    }
}

proof fn lemma_all_inserted_tail(s: Seq<Seq<u8>>, a: Seq<Seq<u8>>, b: Seq<Seq<u8>>, j: int)
    requires
        0 <= j <= b.len(),
    ensures
        all_inserted(s, b, j) == all_inserted(s, a + b, a.len() + j),
    decreases b.len() - j,
{
    if j < b.len() {
        assert((a + b)[a.len() + j] == b[j]);
        lemma_all_inserted_tail(inserted_from(s, b[j], 0), a, b, j + 1);
    }
}

fn insert_category_tags(out: &mut Vec<Vec<u8>>, cats: &Vec<CategoryTag>, doc_end: u64)
    ensures
        byte_strings(final(out)@) == all_inserted(
            byte_strings(old(out)@),
            category_tags(categories_view(cats@), 0, doc_end),
            0,
        ),
{
    let ghost cv = categories_view(cats@);
    let ghost goal = all_inserted(byte_strings(out@), category_tags(cv, 0, doc_end), 0);
    let mut k: usize = 0;
    while k < cats.len()
        invariant
            k <= cats.len(),
            cv == categories_view(cats@),
            all_inserted(byte_strings(out@), category_tags(cv, k as int, doc_end), 0) == goal,
        decreases cats.len() - k,
    {
        assert(cv[k as int] == cats@[k as int]@);
        let ghost here = category_tags(cv, k as int, doc_end);
        let ghost rest = category_tags(cv, k + 1, doc_end);
        let c = &cats[k];
        let tag = if doc_end <= 8192 || c.span.start >= doc_end - 8192 {
            normalize_tag_bytes(c.name.as_str().as_bytes())
        } else {
            None
        };
        match tag {
            Some(x) => {
                assert(here =~= seq![x@] + rest);
                proof {
                    lemma_all_inserted_head(byte_strings(out@), x@, rest);
                }
                insert_sorted(out, x);
            },
            None => {
                assert(here =~= rest);
            },
        }
        k = k + 1;
    }
}

/// Works out the tags of a page, as bytes.
pub fn extract_tag_bytes(doc: &Document, article_id: &[u8]) -> (out: Vec<Vec<u8>>)
    ensures
        byte_strings(out@) == tags_of(doc@, article_id@),
        ascending(byte_strings(out@)),
        forall|t: Seq<u8>|
            byte_strings(out@).contains(t) <==> tag_candidates(doc@, article_id@).contains(t),
{
    let mut out: Vec<Vec<u8>> = Vec::new();
    assert(byte_strings(out@) =~= Seq::empty());
    let ghost nav = match nav_links(doc@.blocks, 0) {
        Some(targets) => nav_tags(targets, 0, article_id@),
        None => Seq::empty(),
    };
    match find_top_nav_links(doc) {
        Some(targets) => insert_nav_tags(&mut out, &targets, article_id),
        None => {},
    }
    assert(byte_strings(out@) == all_inserted(Seq::empty(), nav, 0));
    insert_category_tags(&mut out, &doc.categories, doc.span.end);
    proof {
        lemma_all_inserted_concat(
            Seq::empty(),
            nav,
            category_tags(doc@.categories, 0, doc@.span.end),
            0,
        );
        lemma_sorted_once(tag_candidates(doc@, article_id@));
    }
    out
}

pub open spec fn texts_of(tags: Seq<Seq<u8>>) -> Seq<Seq<char>> {
    Seq::new(tags.len(), |i: int| decoded(tags[i]))
}

/// Turns byte strings into strings.
pub fn to_strings(v: &Vec<Vec<u8>>) -> (out: Vec<String>)
    ensures
        targets_view(out@) == texts_of(byte_strings(v@)),
{
    let mut out: Vec<String> = Vec::new();
    let mut k: usize = 0;
    while k < v.len()
        invariant
            k <= v.len(),
            out@.len() == k,
            forall|j: int| 0 <= j < k ==> out@[j]@ == decoded(v@[j]@),
        decreases v.len() - k,
    {
        out.push(string_from_bytes(v[k].as_slice()));
        k = k + 1;
    }
    assert(targets_view(out@) =~= texts_of(byte_strings(v@)));
    out
}

/// Works out the tags of a page: from the links of its breadcrumbs and from
/// the categories at its bottom; in ascending order, each once.
pub fn extract_tags(doc: &Document, article_id: &str) -> (out: Vec<String>)
    ensures
        targets_view(out@) == texts_of(tags_of(doc@, article_id.spec_bytes())),
{
    let tags = extract_tag_bytes(doc, article_id.as_bytes());
    to_strings(&tags)
}

/// Builds the front matter of a page. `last_fetched_date` is the day on
/// which the page's source was last written, as `YYYY-MM-DD`.
pub fn build_frontmatter(
    article_id: &str,
    last_fetched_date: &str,
    doc: &Document,
    mediawiki_base_url: &str,
) -> (f: Frontmatter)
    ensures
        f.wiki2md.article_id@ == article_id@,
        f.wiki2md.source_url@ == decoded(
            without_trailing(mediawiki_base_url.spec_bytes(), SLASH) + lit("/")
                + article_id.spec_bytes(),
        ),
        f.wiki2md.generated_by@ == "wiki2md"@,
        f.wiki2md.last_fetched_date@ == last_fetched_date@,
        f.wiki2md.schema_version == 1,
        targets_view(f.aliases@) == seq![decoded(title_of(article_id.spec_bytes()))],
        targets_view(f.tags@) == texts_of(tags_of(doc@, article_id.spec_bytes())),
        f.summary is None,
        f.extras_yaml is None,
{
    proof {
        lemma_space_lit();
    }
    let base = mediawiki_base_url.as_bytes();
    let end = skip_byte_run_back(base, 0, base.len(), SLASH);
    let mut url: Vec<u8> = Vec::new();
    url.extend_from_slice(&base[0..end]);
    push_str(&mut url, "/");
    push_str(&mut url, article_id);
    assert(url@ =~= without_trailing(base@, SLASH) + lit("/") + article_id.spec_bytes());
    let title = replace_byte(article_id.as_bytes(), UNDERSCORE, " ".as_bytes());
    let mut aliases: Vec<String> = Vec::new();
    aliases.push(string_from_bytes(title.as_slice()));
    assert(targets_view(aliases@) =~= seq![decoded(title_of(article_id.spec_bytes()))]);
    Frontmatter {
        wiki2md: Wiki2mdMeta {
            article_id: article_id.to_owned(),
            source_url: string_from_bytes(url.as_slice()),
            generated_by: "wiki2md".to_owned(),
            last_fetched_date: last_fetched_date.to_owned(),
            schema_version: 1,
        },
        aliases,
        tags: extract_tags(doc, article_id),
        summary: None,
        extras_yaml: None,
    }
}

} // verus!
