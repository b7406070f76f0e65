//! YAML front matter for the Markdown that is written.

pub mod date;
pub mod merge;
pub mod page;
pub mod order;
pub mod tags;

use crate::emit::{
    copy_range, decimal, line_at, push_bytes, push_decimal, push_str, replace_byte, replaced,
};
use crate::parse::inline::lit;
use crate::parse::util::lemma_ws_boundary;
use crate::render::inline::opt_bytes_view;
use crate::text::{
    blank, ends_with, ends_with_pat, eq_pat, equals_pat, find_byte, first_byte, is_blank,
    decoded, matches_at, skip_ws_back, starts_with, string_from_bytes, trim_end, CR, DQUOTE, NL,
};
use vstd::prelude::*;
use vstd::string::*;
use vstd::utf8::{
    encode_utf8, encode_utf8_valid_utf8, is_char_boundary_iff_not_is_continuation_byte,
    is_char_boundary_start_end_of_seq,
};

verus! {

/// What is recorded of the conversion itself.
#[derive(Debug, Clone, PartialEq, Eq)]
pub struct Wiki2mdMeta {
    pub article_id: String,
    pub source_url: String,
    pub generated_by: String,
    pub last_fetched_date: String,
    pub schema_version: u32,
}

/// The front matter of a page.
#[derive(Debug, Clone, PartialEq, Eq)]
pub struct Frontmatter {
    pub wiki2md: Wiki2mdMeta,
    pub aliases: Vec<String>,
    pub tags: Vec<String>,
    /// A summary, written by hand or by a tool; left out where it is blank.
    pub summary: Option<String>,
    /// Other top-level YAML, kept as it stood.
    pub extras_yaml: Option<String>,
}

pub struct FrontmatterView {
    pub article_id: Seq<u8>,
    pub source_url: Seq<u8>,
    pub generated_by: Seq<u8>,
    pub last_fetched_date: Seq<u8>,
    pub schema_version: u32,
    pub aliases: Seq<Seq<u8>>,
    pub tags: Seq<Seq<u8>>,
    pub summary: Option<Seq<u8>>,
    pub extras_yaml: Option<Seq<u8>>,
}

pub open spec fn texts_utf8(v: Seq<String>) -> Seq<Seq<u8>> {
    Seq::new(v.len(), |i: int| encode_utf8(v[i]@))
}

pub open spec fn opt_string_utf8(s: Option<String>) -> Option<Seq<u8>> {
    match s {
        Some(v) => Some(encode_utf8(v@)),
        None => None,
    }
}

impl View for Frontmatter {
    type V = FrontmatterView;

    open spec fn view(&self) -> FrontmatterView {
        FrontmatterView {
            article_id: encode_utf8(self.wiki2md.article_id@),
            source_url: encode_utf8(self.wiki2md.source_url@),
            generated_by: encode_utf8(self.wiki2md.generated_by@),
            last_fetched_date: encode_utf8(self.wiki2md.last_fetched_date@),
            schema_version: self.wiki2md.schema_version,
            aliases: texts_utf8(self.aliases@),
            tags: texts_utf8(self.tags@),
            summary: opt_string_utf8(self.summary),
            extras_yaml: opt_string_utf8(self.extras_yaml),
        }
    }
}

/// A string in double quotes, with `\` before each `\` and `"` in it.
pub open spec fn yaml_quoted(s: Seq<u8>) -> Seq<u8> {
    lit("\"") + replaced(replaced(s, 92, lit("\\\\")), DQUOTE, lit("\\\"")) + lit("\"")
}

pub fn yaml_quote(s: &[u8]) -> (out: Vec<u8>)
    ensures
        out@ == yaml_quoted(s@),
{
    let a = replace_byte(s, 92, "\\\\".as_bytes());
    let b = replace_byte(a.as_slice(), DQUOTE, "\\\"".as_bytes());
    let mut out: Vec<u8> = Vec::new();
    push_str(&mut out, "\"");
    push_bytes(&mut out, b.as_slice());
    push_str(&mut out, "\"");
    assert(out@ =~= yaml_quoted(s@));
    out
}

/// The items from the `k`-th on as a YAML list, each quoted where `quote`.
pub open spec fn yaml_items(items: Seq<Seq<u8>>, k: int, quote: bool) -> Seq<u8>
    decreases items.len() - k,
{
    if k < 0 || k >= items.len() {
        Seq::empty()
    } else {
        lit("  - ") + (if quote {
            yaml_quoted(items[k])
        } else {
            items[k]
        }) + seq![NL] + yaml_items(items, k + 1, quote)
    }
}

/// `s` with a newline at its end, unless it has one.
pub open spec fn with_newline(s: Seq<u8>) -> Seq<u8> {
    if s.len() > 0 && s[s.len() - 1] == NL {
        s
    } else {
        s + seq![NL]
    }
}

/// The head of the front matter: what is recorded of the conversion, and
/// the aliases.
pub open spec fn yaml_head(f: FrontmatterView) -> Seq<u8> {
    lit("---\nwiki2md:\n  article_id: ") + f.article_id + lit("\n  source_url: ") + f.source_url
        + lit("\n  generated_by: ") + f.generated_by + lit("\n  last_fetched_date: ")
        + f.last_fetched_date + lit("\n  schema_version: ") + decimal(f.schema_version as nat)
        + lit("\naliases:\n") + yaml_items(f.aliases, 0, true)
}

/// The summary, unless it is blank.
pub open spec fn yaml_summary(summary: Option<Seq<u8>>) -> Seq<u8> {
    match summary {
        Some(s) => if is_blank(s, 0, s.len() as int) {
            Seq::empty()
        } else {
            lit("summary: ") + yaml_quoted(s) + seq![NL]
        },
        None => Seq::empty(),
    }
}

pub open spec fn yaml_tags(tags: Seq<Seq<u8>>) -> Seq<u8> {
    if tags.len() == 0 {
        lit("tags: []\n")
    } else {
        lit("tags:\n") + yaml_items(tags, 0, false)
    }
}

/// The other YAML as it stood, with a newline at its end; nothing where it
/// is blank.
pub open spec fn yaml_extras(extras: Option<Seq<u8>>) -> Seq<u8> {
    match extras {
        Some(e) => if is_blank(e, 0, e.len() as int) {
            Seq::empty()
        } else {
            with_newline(e)
        },
        None => Seq::empty(),
    }
}

/// The front matter as YAML between two `---` lines.
pub open spec fn yaml_of(f: FrontmatterView) -> Seq<u8> {
    yaml_head(f) + yaml_summary(f.summary) + yaml_tags(f.tags) + yaml_extras(f.extras_yaml) + lit(
        "---\n",
    )
}

fn push_items(out: &mut Vec<u8>, items: &Vec<String>, quote: bool)
    ensures
        final(out)@ == old(out)@ + yaml_items(texts_utf8(items@), 0, quote),
{
    let ghost iv = texts_utf8(items@);
    let ghost goal = old(out)@ + yaml_items(iv, 0, quote);
    let mut k: usize = 0;
    assert(out@ + yaml_items(iv, 0, quote) =~= goal);
    while k < items.len()
        invariant
            k <= items.len(),
            iv == texts_utf8(items@),
            out@ + yaml_items(iv, k as int, quote) =~= goal,
        decreases items.len() - k,
    {
        let ghost out0 = out@;
        assert(iv[k as int] == encode_utf8(items@[k as int]@));
        push_str(out, "  - ");
        if quote {
            let q = yaml_quote(items[k].as_str().as_bytes());
            push_bytes(out, q.as_slice());
        } else {
            push_str(out, items[k].as_str());
        }
        out.push(NL);
        assert(out@ =~= out0 + (lit("  - ") + (if quote {
            yaml_quoted(iv[k as int])
        } else {
            iv[k as int]
        }) + seq![NL]));
        assert(out@ + yaml_items(iv, k + 1, quote) =~= out0 + yaml_items(iv, k as int, quote));
        k = k + 1;
    }
    assert(yaml_items(iv, k as int, quote) =~= Seq::empty());
}

fn push_head(out: &mut Vec<u8>, f: &Frontmatter)
    requires
        old(out)@.len() == 0,
    ensures
        final(out)@ == yaml_head(f@),
{
    push_str(out, "---\nwiki2md:\n  article_id: ");
    push_str(out, f.wiki2md.article_id.as_str());
    push_str(out, "\n  source_url: ");
    push_str(out, f.wiki2md.source_url.as_str());
    push_str(out, "\n  generated_by: ");
    push_str(out, f.wiki2md.generated_by.as_str());
    let ghost first = out@;
    assert(first =~= lit("---\nwiki2md:\n  article_id: ") + f@.article_id + lit(
        "\n  source_url: ",
    ) + f@.source_url + lit("\n  generated_by: ") + f@.generated_by);
    push_str(out, "\n  last_fetched_date: ");
    push_str(out, f.wiki2md.last_fetched_date.as_str());
    push_str(out, "\n  schema_version: ");
    push_decimal(out, f.wiki2md.schema_version as usize);
    push_str(out, "\naliases:\n");
    let ghost second = out@;
    assert(second =~= first + lit("\n  last_fetched_date: ") + f@.last_fetched_date + lit(
        "\n  schema_version: ",
    ) + decimal(f@.schema_version as nat) + lit("\naliases:\n"));
    push_items(out, &f.aliases, true);
    assert(out@ =~= yaml_head(f@));
}

fn push_summary(out: &mut Vec<u8>, summary: &Option<String>)
    ensures
        final(out)@ == old(out)@ + yaml_summary(opt_string_utf8(*summary)),
{
    match summary {
        Some(s) => {
            let sb = s.as_str().as_bytes();
            if !blank(sb, 0, sb.len()) {
                push_str(out, "summary: ");
                let q = yaml_quote(sb);
                push_bytes(out, q.as_slice());
                out.push(NL);
                assert(out@ =~= old(out)@ + (lit("summary: ") + yaml_quoted(sb@) + seq![NL]));
            } else {
                assert(out@ =~= old(out)@ + Seq::<u8>::empty());
            }
        },
        None => {
            assert(out@ =~= old(out)@ + Seq::<u8>::empty());
        },
    }
}

fn push_tags(out: &mut Vec<u8>, tags: &Vec<String>)
    ensures
        final(out)@ == old(out)@ + yaml_tags(texts_utf8(tags@)),
{
    if tags.len() == 0 {
        push_str(out, "tags: []\n");
    } else {
        push_str(out, "tags:\n");
        push_items(out, tags, false);
        assert(out@ =~= old(out)@ + (lit("tags:\n") + yaml_items(texts_utf8(tags@), 0, false)));
    }
}

fn push_extras(out: &mut Vec<u8>, extras: &Option<String>)
    ensures
        final(out)@ == old(out)@ + yaml_extras(opt_string_utf8(*extras)),
{
    match extras {
        Some(e) => {
            let eb = e.as_str().as_bytes();
            if !blank(eb, 0, eb.len()) {
                push_bytes(out, eb);
                if !(eb.len() > 0 && eb[eb.len() - 1] == NL) {
                    out.push(NL);
                }
                assert(out@ =~= old(out)@ + with_newline(eb@));
            } else {
                assert(out@ =~= old(out)@ + Seq::<u8>::empty());
            }
        },
        None => {
            assert(out@ =~= old(out)@ + Seq::<u8>::empty());
        },
    }
}

impl Frontmatter {
    /// Writes the front matter as YAML, as bytes.
    pub fn to_yaml_bytes(&self) -> (out: Vec<u8>)
        ensures
            out@ == yaml_of(self@),
    {
        let mut out: Vec<u8> = Vec::new();
        push_head(&mut out, self);
        push_summary(&mut out, &self.summary);
        push_tags(&mut out, &self.tags);
        push_extras(&mut out, &self.extras_yaml);
        push_str(&mut out, "---\n");
        out
    }

    /// Writes the front matter as YAML.
    pub fn to_yaml_string(&self) -> (out: String)
        ensures
            out@ == decoded(yaml_of(self@)),
    {
        let b = self.to_yaml_bytes();
        string_from_bytes(b.as_slice())
    }
}

/// The first position at or before `hi` that a newline or a carriage return
/// does not precede.
pub open spec fn line_text_end(s: Seq<u8>, lo: int, hi: int) -> int
    decreases hi - lo,
{
    if 0 <= lo < hi <= s.len() && (s[hi - 1] == NL || s[hi - 1] == CR) {
        line_text_end(s, lo, hi - 1)
    } else {
        hi
    }
}

fn strip_line_end(s: &[u8], lo: usize, hi: usize) -> (e: usize)
    requires
        lo <= hi <= s.len(),
    ensures
        e == line_text_end(s@, lo as int, hi as int),
        lo <= e <= hi,
{
    let mut e: usize = hi;
    while e > lo && (s[e - 1] == NL || s[e - 1] == CR)
        invariant
            lo <= e <= hi <= s.len(),
            line_text_end(s@, lo as int, e as int) == line_text_end(s@, lo as int, hi as int),
        decreases e - lo,
    {
        e = e - 1;
    }
    e
}

/// Where the line after the closing `---` starts: the closing line is the
/// first line from `start` on that is `---`.
pub open spec fn closing_from(s: Seq<u8>, start: int) -> Option<int>
    decreases s.len() - start,
{
    if start < 0 || start >= s.len() {
        None
    } else {
        let end = match first_byte(s, start, s.len() as int, NL) {
            Some(p) => p + 1,
            None => s.len() as int,
        };
        if equals_pat(s, start, line_text_end(s, start, end), lit("---")) {
            Some(end)
        } else if start < end <= s.len() {
            closing_from(s, end)
        } else {
            None
        }
    }
}

/// Where the front matter of a text ends: the text starts with a line `---`
/// and holds another one; the front matter runs up to the end of that
/// line.
pub open spec fn frontmatter_end(s: Seq<u8>) -> Option<int> {
    let n = s.len() as int;
    if matches_at(s, 0, n, lit("---\n")) || matches_at(s, 0, n, lit("---\r\n")) {
        match first_byte(s, 0, n, NL) {
            Some(p) => closing_from(s, p + 1),
            None => None,
        }
    } else {
        None
    }
}

fn find_closing(s: &[u8], from: usize) -> (r: Option<usize>)
    requires
        from <= s.len(),
    ensures
        crate::text::opt_int(r) == closing_from(s@, from as int),
        r matches Some(e) ==> from < e <= s@.len() && (e == s@.len() || s@[e - 1] == NL),
{
    let mut start: usize = from;
    while start < s.len()
        invariant
            from <= start <= s.len(),
            closing_from(s@, start as int) == closing_from(s@, from as int),
        decreases s.len() - start,
    {
        let end = match find_byte(s, start, s.len(), NL) {
            Some(p) => p + 1,
            None => s.len(),
        };
        let e = strip_line_end(s, start, end);
        if eq_pat(s, start, e, "---".as_bytes()) {
            return Some(end);
        }
        start = end;
    }
    None
}

fn find_frontmatter_end(s: &[u8]) -> (r: Option<usize>)
    ensures
        crate::text::opt_int(r) == frontmatter_end(s@),
        r matches Some(e) ==> 0 < e <= s@.len() && (e == s@.len() || s@[e - 1] == NL),
{
    let n: usize = s.len();
    if !(starts_with(s, 0, n, "---\n".as_bytes()) || starts_with(s, 0, n, "---\r\n".as_bytes())) {
        return None;
    }
    match find_byte(s, 0, n, NL) {
        Some(p) => find_closing(s, p + 1),
        None => None,
    }
}

/// Splits a text that starts with front matter into the front matter, with
/// its two `---` lines, and the rest.
pub fn split_yaml_frontmatter(text: &str) -> (r: Option<(String, &str)>)
    ensures
        match r {
            Some((fm, rest)) => {
                &&& frontmatter_end(text.spec_bytes()) matches Some(e)
                &&& encode_utf8(fm@) =~= text.spec_bytes().subrange(0, e)
                &&& rest.spec_bytes() =~= text.spec_bytes().subrange(
                    e,
                    text.spec_bytes().len() as int,
                )
            },
            None => frontmatter_end(text.spec_bytes()) is None,
        },
{
    let b = text.as_bytes();
    match find_frontmatter_end(b) {
        Some(e) => {
            proof {
                encode_utf8_valid_utf8(text@);
                if e < b@.len() {
                    is_char_boundary_iff_not_is_continuation_byte(b@, e - 1);
                    lemma_ws_boundary(b@, e - 1, e as int);
                } else {
                    is_char_boundary_start_end_of_seq(b@);
                }
            }
            let (head, rest) = text.split_at(e);
            Some((head.to_owned(), rest))
        },
        None => None,
    }
}

/// What stands between the two `---` lines of a block of front matter, read
/// from `start` on: each line with a newline after it.
pub open spec fn inner_from(s: Seq<u8>, start: int) -> Seq<u8>
    decreases s.len() - start,
{
    if start < 0 || start >= s.len() {
        Seq::empty()
    } else {
        let l = line_at(s, start);
        if equals_pat(s, start, trim_end(s, start, l.0), lit("---")) {
            Seq::empty()
        } else if start < l.1 <= s.len() {
            s.subrange(start, l.0) + seq![NL] + inner_from(s, l.1)
        } else {
            s.subrange(start, l.0) + seq![NL]
        }
    }
}

/// What stands between the two `---` lines of a block of front matter; none
/// where the block does not start with a `---` line.
pub open spec fn yaml_inner(s: Seq<u8>) -> Option<Seq<u8>> {
    if s.len() == 0 {
        None
    } else {
        let l = line_at(s, 0);
        if equals_pat(s, 0, trim_end(s, 0, l.0), lit("---")) {
            Some(
                if 0 < l.1 <= s.len() {
                    inner_from(s, l.1)
                } else {
                    Seq::empty()
                },
            )
        } else {
            None
        }
    }
}

pub fn extract_yaml_inner(block: &[u8]) -> (r: Option<Vec<u8>>)
    ensures
        opt_bytes_view(r) == yaml_inner(block@),
{
    if block.len() == 0 {
        return None;
    }
    let (end, next) = crate::convert::table::next_line(block, 0);
    let e = skip_ws_back(block, 0, end);
    if !eq_pat(block, 0, e, "---".as_bytes()) {
        return None;
    }
    let mut out: Vec<u8> = Vec::new();
    if !(0 < next && next <= block.len()) {
        return Some(out);
    }
    let ghost goal = inner_from(block@, next as int);
    let mut start: usize = next;
    assert(out@ + goal =~= goal);
    loop
        invariant_except_break
            out@ + inner_from(block@, start as int) =~= goal,
        invariant
            start <= block.len(),
        ensures
            out@ =~= goal,
        decreases block.len() - start,
    {
        if start >= block.len() {
            assert(inner_from(block@, start as int) =~= Seq::empty());
            break ;
        }
        let ghost out0 = out@;
        let ghost here = inner_from(block@, start as int);
        let (end, next) = crate::convert::table::next_line(block, start);
        let e = skip_ws_back(block, start, end);
        if eq_pat(block, start, e, "---".as_bytes()) {
            assert(here =~= Seq::empty());
            break ;
        }
        out.extend_from_slice(&block[start..end]);
        out.push(NL);
        assert(out@ =~= out0 + (block@.subrange(start as int, end as int) + seq![NL]));
        if start < next && next <= block.len() {
            assert(here == block@.subrange(start as int, end as int) + seq![NL] + inner_from(
                block@,
                next as int,
            ));
            assert(out@ + inner_from(block@, next as int) =~= out0 + here);
            start = next;
        } else {
            assert(here == block@.subrange(start as int, end as int) + seq![NL]);
            break ;
        }
    }
    Some(out)
}

/// The position after the run of `pat` that `s` starts with, and the
/// position before the run of `pat` that `[lo, ..)` ends with.
pub open spec fn run_start(s: Seq<u8>, lo: int, hi: int, pat: Seq<u8>) -> int
    decreases hi - lo,
{
    if pat.len() > 0 && lo <= hi - pat.len() && ends_with_pat(s, lo, hi, pat) {
        run_start(s, lo, hi - pat.len(), pat)
    } else {
        hi
    }
}

/// YAML without the `---` lines at its start and the `...` lines at its
/// end.
pub open spec fn markers_stripped(s: Seq<u8>) -> Seq<u8> {
    let a = crate::convert::table::skip_pat(s, 0, lit("---\n"));
    let t = s.subrange(a, s.len() as int);
    t.subrange(0, run_start(t, 0, t.len() as int, lit("...\n")))
}

pub fn strip_yaml_document_markers(s: &[u8]) -> (out: Vec<u8>)
    ensures
        out@ == markers_stripped(s@),
{
    let open = "---\n".as_bytes();
    let close = "...\n".as_bytes();
    let mut a: usize = 0;
    while open.len() > 0 && starts_with(s, a, s.len(), open)
        invariant
            a <= s.len(),
            crate::convert::table::skip_pat(s@, a as int, open@) == crate::convert::table::skip_pat(
                s@,
                0,
                open@,
            ),
        decreases s.len() - a,
    {
        a = a + open.len();
    }
    let t = &s[a..s.len()];
    let mut e: usize = t.len();
    while close.len() > 0 && close.len() <= e && ends_with(t, 0, e, close)
        invariant
            e <= t.len(),
            run_start(t@, 0, e as int, close@) == run_start(t@, 0, t@.len() as int, close@),
        decreases e,
    {
        e = e - close.len();
    }
    copy_range(t, 0, e)
}

} // verus!
