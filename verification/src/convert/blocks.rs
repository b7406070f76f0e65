//! Lifting code blocks out of the text, quote spacing, newlines and
//! placeholders.

use crate::convert::pattern::{
    groups_view, matches_view, matches_within, normal, re_matches, rematches, Found,
};
use crate::emit::{
    copy_range, decimal, line_at, push_bytes, push_decimal, push_str, replace_sub, replaced_sub,
};
use crate::parse::inline::{lemma_concat_assoc, lit};
use crate::render::inline::{opt_bytes_view, trimmed, trimmed_copy};
use crate::text::{
    blank, ends_with, ends_with_pat, find_byte, is_blank, matches_at, skip_byte_run,
    skip_byte_run_back, skip_run, skip_run_back, skip_ws_back, starts_with, trim_end, CR, NL,
};
use vstd::prelude::*;
use vstd::string::*;

verus! {

pub const SYNTAX_BLOCK: &'static str =
    r#"(?is)<syntaxhighlight(?P<attrs>[^>]*)>(?P<code>.*?)</syntaxhighlight>"#;

pub const PRE_BLOCK: &'static str = r"(?is)<pre(?P<attrs>[^>]*)>(?P<code>.*?)</pre>";

pub const LANG_ATTR: &'static str = r#"(?i)\blang\s*=\s*"?([a-z0-9_+-]+)"?"#;

/// What the first group of the first match holds.
pub open spec fn first_group(hay: Seq<u8>, ms: Seq<Seq<Option<(int, int)>>>) -> Option<Seq<u8>> {
    if ms.len() > 0 && ms[0].len() >= 2 {
        match ms[0][1] {
            Some((a, b)) => if 0 <= a <= b <= hay.len() {
                Some(hay.subrange(a, b))
            } else {
                None
            },
            None => None,
        }
    } else {
        None
    }
}

/// Picks out what the first group of the first match holds.
pub fn take_first_group(f: &Found) -> (r: Option<Vec<u8>>)
    requires
        matches_within(f.matches@, f.hay@.len() as int),
    ensures
        opt_bytes_view(r) == first_group(f.hay@, matches_view(f.matches@)),
{
    if f.matches.len() == 0 {
        return None;
    }
    let m = &f.matches[0];
    assert(matches_view(f.matches@)[0] == groups_view(m@));
    if m.len() < 2 {
        return None;
    }
    match m[1] {
        Some((a, b)) => if a <= b && b <= f.hay.len() {
            Some(copy_range(f.hay.as_slice(), a, b))
        } else {
            None
        },
        None => None,
    }
}

/// The language that a `lang` attribute names.
pub open spec fn lang_of(attrs: Seq<u8>) -> Option<Seq<u8>> {
    first_group(normal(attrs), rematches(LANG_ATTR@, attrs))
}

pub fn extract_lang_from_attrs(attrs: &[u8]) -> (r: Option<Vec<u8>>)
    ensures
        opt_bytes_view(r) == lang_of(attrs@),
{
    let f = re_matches(LANG_ATTR, attrs);
    take_first_group(&f)
}

/// Code without the newlines at its two ends and without trailing white
/// space.
pub open spec fn code_trimmed(code: Seq<u8>) -> Seq<u8> {
    let a = skip_run(code, 0, code.len() as int, NL);
    let b = skip_run_back(code, a, code.len() as int, NL);
    code.subrange(a, trim_end(code, a, b))
}

pub fn trim_code_block(code: &[u8]) -> (out: Vec<u8>)
    ensures
        out@ == code_trimmed(code@),
{
    let a = skip_byte_run(code, 0, code.len(), NL);
    let b = skip_byte_run_back(code, a, code.len(), NL);
    let c = skip_ws_back(code, a, b);
    copy_range(code, a, c)
}

/// A text with its code blocks lifted out.
pub struct Lifted {
    pub text: Seq<u8>,
    pub blocks: Seq<Seq<u8>>,
}

/// The whole match and its groups `attrs` and `code`, where the match lies
/// in the text and starts at or after `cursor`; a group that took no part
/// is empty.
pub open spec fn code_match(m: Seq<Option<(int, int)>>, cursor: int, len: int) -> Option<
    (int, int, (int, int), (int, int)),
> {
    if m.len() >= 3 {
        match m[0] {
            Some((a, b)) => {
                let attrs = match m[1] {
                    Some(r) => r,
                    None => (a, a),
                };
                let code = match m[2] {
                    Some(r) => r,
                    None => (a, a),
                };
                if cursor <= a <= b <= len && 0 <= attrs.0 <= attrs.1 <= len && 0 <= code.0
                    <= code.1 <= len {
                    Some((a, b, attrs, code))
                } else {
                    None
                }
            },
            None => None,
        }
    } else {
        None
    }
}

/// A code block as fenced Markdown. A `<syntaxhighlight>` block has the
/// language of its `lang` attribute, or `text`; a `<pre>` block has `c`.
pub open spec fn fenced(attrs: Seq<u8>, code: Seq<u8>, syntax: bool) -> Seq<u8> {
    lit("```") + (if syntax {
        match lang_of(attrs) {
            Some(l) => l,
            None => lit("text"),
        }
    } else {
        lit("c")
    }) + seq![NL] + code_trimmed(code) + lit("\n```")
}

/// The placeholder that stands for the `n`-th block of a kind.
pub open spec fn placeholder(kind: Seq<u8>, n: nat) -> Seq<u8> {
    lit("{{ ") + kind + seq![32u8] + decimal(n) + lit(" }}")
}

/// `hay` from `cursor` on with each code block from the `k`-th match on
/// replaced by its placeholder, and the blocks.
pub open spec fn code_spliced(
    hay: Seq<u8>,
    ms: Seq<Seq<Option<(int, int)>>>,
    k: int,
    cursor: int,
    blocks: Seq<Seq<u8>>,
    syntax: bool,
) -> Lifted
    decreases ms.len() - k,
{
    if k < 0 || k >= ms.len() {
        Lifted { text: hay.subrange(cursor, hay.len() as int), blocks }
    } else {
        match code_match(ms[k], cursor, hay.len() as int) {
            Some((a, b, attrs, code)) => {
                let more = blocks.push(
                    fenced(hay.subrange(attrs.0, attrs.1), hay.subrange(code.0, code.1), syntax),
                );
                let rest = code_spliced(hay, ms, k + 1, b, more, syntax);
                Lifted {
                    text: hay.subrange(cursor, a) + (seq![NL] + placeholder(
                        lit("CODE BLOCK"),
                        more.len(),
                    ) + seq![NL]) + rest.text,
                    blocks: rest.blocks,
                }
            },
            None => code_spliced(hay, ms, k + 1, cursor, blocks, syntax),
        }
    }
}

/// A text with its code blocks lifted out: the `<syntaxhighlight>` blocks
/// first, then the `<pre>` blocks.
pub open spec fn code_lifted(t: Seq<u8>) -> Lifted {
    let first = code_spliced(normal(t), rematches(SYNTAX_BLOCK@, t), 0, 0, Seq::empty(), true);
    code_spliced(
        normal(first.text),
        rematches(PRE_BLOCK@, first.text),
        0,
        0,
        first.blocks,
        false,
    )
}

pub open spec fn blocks_view(v: Seq<Vec<u8>>) -> Seq<Seq<u8>> {
    Seq::new(v.len(), |i: int| v[i]@)
}

pub proof fn lemma_blocks_push(v: Seq<Vec<u8>>, b: Vec<u8>)
    ensures
        blocks_view(v.push(b)) =~= blocks_view(v).push(b@),
{
}

fn pick_code_match(m: &Vec<Option<(usize, usize)>>, cursor: usize, len: usize) -> (r: Option<
    (usize, usize, (usize, usize), (usize, usize)),
>)
    ensures
        match r {
            Some((a, b, attrs, code)) => code_match(groups_view(m@), cursor as int, len as int)
                == Some(
                (
                    a as int,
                    b as int,
                    (attrs.0 as int, attrs.1 as int),
                    (code.0 as int, code.1 as int),
                ),
            ) && cursor <= a <= b <= len && attrs.0 <= attrs.1 <= len && code.0 <= code.1 <= len,
            None => code_match(groups_view(m@), cursor as int, len as int) is None,
        },
{
    if m.len() < 3 {
        return None;
    }
    match m[0] {
        Some((a, b)) => {
            let attrs = match m[1] {
                Some(r) => r,
                None => (a, a),
            };
            let code = match m[2] {
                Some(r) => r,
                None => (a, a),
            };
            if cursor <= a && a <= b && b <= len && attrs.0 <= attrs.1 && attrs.1 <= len && code.0
                <= code.1 && code.1 <= len {
                Some((a, b, attrs, code))
            } else {
                None
            }
        },
        None => None,
    }
}

fn make_fenced(attrs: &[u8], code: &[u8], syntax: bool) -> (out: Vec<u8>)
    ensures
        out@ == fenced(attrs@, code@, syntax),
{
    let mut out: Vec<u8> = Vec::new();
    push_str(&mut out, "```");
    if syntax {
        match extract_lang_from_attrs(attrs) {
            Some(l) => push_bytes(&mut out, l.as_slice()),
            None => push_str(&mut out, "text"),
        }
    } else {
        push_str(&mut out, "c");
    }
    out.push(NL);
    let c = trim_code_block(code);
    push_bytes(&mut out, c.as_slice());
    push_str(&mut out, "\n```");
    assert(out@ =~= fenced(attrs@, code@, syntax));
    out
}

/// Appends the placeholder of the `n`-th block of a kind.
pub fn push_placeholder(out: &mut Vec<u8>, kind: &str, n: usize)
    ensures
        final(out)@ == old(out)@ + placeholder(lit(kind), n as nat),
{
    push_str(out, "{{ ");
    push_str(out, kind);
    out.push(32);
    push_decimal(out, n);
    push_str(out, " }}");
    assert(out@ =~= old(out)@ + placeholder(lit(kind), n as nat));
}

/// Lifts the code blocks of one kind out of a text.
fn lift_blocks_of(pattern: &str, text: &[u8], blocks: &mut Vec<Vec<u8>>, syntax: bool) -> (out: Vec<
    u8,
>)
    ensures
        out@ == code_spliced(
            normal(text@),
            rematches(pattern@, text@),
            0,
            0,
            blocks_view(old(blocks)@),
            syntax,
        ).text,
        blocks_view(final(blocks)@) == code_spliced(
            normal(text@),
            rematches(pattern@, text@),
            0,
            0,
            blocks_view(old(blocks)@),
            syntax,
        ).blocks,
{
    let f = re_matches(pattern, text);
    let hay = f.hay.as_slice();
    let ghost ms = matches_view(f.matches@);
    let ghost goal = code_spliced(hay@, ms, 0, 0, blocks_view(blocks@), syntax);
    let mut out: Vec<u8> = Vec::new();
    let mut cursor: usize = 0;
    let mut k: usize = 0;
    assert(out@ + goal.text =~= goal.text);
    while k < f.matches.len()
        invariant
            k <= f.matches.len(),
            cursor <= hay@.len(),
            ms == matches_view(f.matches@),
            out@ + code_spliced(hay@, ms, k as int, cursor as int, blocks_view(blocks@), syntax).text
                =~= goal.text,
            code_spliced(hay@, ms, k as int, cursor as int, blocks_view(blocks@), syntax).blocks
                == goal.blocks,
        decreases f.matches.len() - k,
    {
        let ghost out0 = out@;
        let ghost b0 = blocks_view(blocks@);
        let ghost here = code_spliced(hay@, ms, k as int, cursor as int, b0, syntax);
        assert(ms[k as int] == groups_view(f.matches@[k as int]@));
        match pick_code_match(&f.matches[k], cursor, hay.len()) {
            Some((a, b, attrs, code)) => {
                {
                    out.extend_from_slice(&hay[cursor..a]);
                    let block = make_fenced(&hay[attrs.0..attrs.1], &hay[code.0..code.1], syntax);
                    proof {
                        lemma_blocks_push(blocks@, block);
                    }
                    blocks.push(block);
                    out.push(NL);
                    push_placeholder(&mut out, "CODE BLOCK", blocks.len());
                    out.push(NL);
                    proof {
                        let more = blocks_view(blocks@);
                        let rest = code_spliced(hay@, ms, k + 1, b as int, more, syntax);
                        let head = hay@.subrange(cursor as int, a as int) + (seq![NL] + placeholder(
                            lit("CODE BLOCK"),
                            more.len(),
                        ) + seq![NL]);
                        assert(out@ =~= out0 + head);
                        assert(here.text == head + rest.text);
                        lemma_concat_assoc(out0, head, rest.text);
                    }
                    cursor = b;
                }
            },
            None => {},
        }
        k = k + 1;
    }
    out.extend_from_slice(&hay[cursor..hay.len()]);
    out
}

/// Lifts the code blocks out of a text, so that nothing rewrites them.
pub fn lift_code_blocks(text: &[u8]) -> (r: (Vec<u8>, Vec<Vec<u8>>))
    ensures
        r.0@ == code_lifted(text@).text,
        blocks_view(r.1@) == code_lifted(text@).blocks,
{
    let mut blocks: Vec<Vec<u8>> = Vec::new();
    assert(blocks_view(blocks@) =~= Seq::empty());
    let first = lift_blocks_of(SYNTAX_BLOCK, text, &mut blocks, true);
    let second = lift_blocks_of(PRE_BLOCK, first.as_slice(), &mut blocks, false);
    (second, blocks)
}

/// `text` with the placeholder of each block from the `k`-th on replaced by
/// the block.
pub open spec fn restored(text: Seq<u8>, kind: Seq<u8>, blocks: Seq<Seq<u8>>, k: int) -> Seq<u8>
    decreases blocks.len() - k,
{
    if k < 0 || k >= blocks.len() {
        text
    } else {
        restored(
            replaced_sub(text, placeholder(kind, (k + 1) as nat), blocks[k]),
            kind,
            blocks,
            k + 1,
        )
    }
}

/// Puts the blocks back in the place of their placeholders.
pub fn restore_placeholders(text: Vec<u8>, kind: &str, blocks: &Vec<Vec<u8>>) -> (out: Vec<u8>)
    ensures
        out@ == restored(text@, lit(kind), blocks_view(blocks@), 0),
{
    let ghost goal = restored(text@, lit(kind), blocks_view(blocks@), 0);
    let mut text = text;
    let mut k: usize = 0;
    while k < blocks.len()
        invariant
            k <= blocks.len(),
            restored(text@, lit(kind), blocks_view(blocks@), k as int) == goal,
        decreases blocks.len() - k,
    {
        let mut p: Vec<u8> = Vec::new();
        push_placeholder(&mut p, kind, k + 1);
        assert(p@ =~= placeholder(lit(kind), (k + 1) as nat));
        assert(blocks_view(blocks@)[k as int] == blocks@[k as int]@);
        text = replace_sub(text.as_slice(), p.as_slice(), blocks[k].as_slice());
        k = k + 1;
    }
    text
}

/// Runs of three newlines become two, three times over; then the white
/// space at the two ends goes.
pub open spec fn newlines_cleaned(t: Seq<u8>) -> Seq<u8> {
    trimmed(
        replaced_sub(
            replaced_sub(replaced_sub(t, lit("\n\n\n"), lit("\n\n")), lit("\n\n\n"), lit("\n\n")),
            lit("\n\n\n"),
            lit("\n\n"),
        ),
    )
}

pub fn cleanup_newlines(text: &[u8]) -> (out: Vec<u8>)
    ensures
        out@ == newlines_cleaned(text@),
{
    let three = "\n\n\n".as_bytes();
    let two = "\n\n".as_bytes();
    let a = replace_sub(text, three, two);
    let b = replace_sub(a.as_slice(), three, two);
    let c = replace_sub(b.as_slice(), three, two);
    trimmed_copy(c.as_slice())
}

/// `out` with a blank line at its end, unless it is empty or has one.
pub open spec fn with_blank_line(out: Seq<u8>) -> Seq<u8> {
    let n = out.len() as int;
    if n == 0 || ends_with_pat(out, 0, n, lit("\n\n")) {
        out
    } else if out[n - 1] == NL {
        out + seq![NL]
    } else {
        out + lit("\n\n")
    }
}

/// The lines of `s` from `start` on, appended to `out`, with quotes set
/// apart: a blank line before and after a run of quote lines, and a line
/// with `>` between two quote lines.
pub open spec fn quotes_spaced(s: Seq<u8>, start: int, out: Seq<u8>, was_quote: bool) -> Seq<u8>
    decreases s.len() - start,
{
    if start < 0 || start >= s.len() {
        out
    } else {
        let l = line_at(s, start);
        let quote = matches_at(s, start, l.0, lit("> "));
        let before = if quote {
            if was_quote {
                out + lit(">\n")
            } else {
                with_blank_line(out)
            }
        } else if was_quote && !is_blank(s, start, l.0) {
            with_blank_line(out)
        } else {
            out
        };
        let next = before + s.subrange(start, l.0) + seq![NL];
        if start < l.1 <= s.len() {
            quotes_spaced(s, l.1, next, quote)
        } else {
            next
        }
    }
}

fn push_blank_line(out: &mut Vec<u8>)
    ensures
        final(out)@ == with_blank_line(old(out)@),
{
    let n: usize = out.len();
    if n == 0 || ends_with(out.as_slice(), 0, n, "\n\n".as_bytes()) {
        assert(out@ =~= with_blank_line(old(out)@));
    } else if out[n - 1] == NL {
        out.push(NL);
    } else {
        push_str(out, "\n\n");
    }
}

/// Sets quotes apart from the text around them.
pub fn process_quote_spacing(input: &[u8]) -> (out: Vec<u8>)
    ensures
        out@ == quotes_spaced(input@, 0, Seq::empty(), false),
{
    let ghost goal = quotes_spaced(input@, 0, Seq::empty(), false);
    let mut out: Vec<u8> = Vec::new();
    let mut was_quote = false;
    let mut start: usize = 0;
    while start < input.len()
        invariant
            start <= input.len(),
            quotes_spaced(input@, start as int, out@, was_quote) == goal,
        decreases input.len() - start,
    {
        let (end, next) = match find_byte(input, start, input.len(), NL) {
            Some(p) => (
                if start < p && input[p - 1] == CR {
                    p - 1
                } else {
                    p
                },
                p + 1,
            ),
            None => (input.len(), input.len()),
        };
        let quote = starts_with(input, start, end, "> ".as_bytes());
        let ghost out0 = out@;
        if quote {
            if was_quote {
                push_str(&mut out, ">\n");
            } else {
                push_blank_line(&mut out);
            }
        } else if was_quote && !blank(input, start, end) {
            push_blank_line(&mut out);
        }
        let ghost before = out@;
        out.extend_from_slice(&input[start..end]);
        out.push(NL);
        assert(out@ =~= before + input@.subrange(start as int, end as int) + seq![NL]);
        was_quote = quote;
        if next > start && next <= input.len() {
            start = next;
        } else {
            start = input.len();
        }
    }
    out
}

} // verus!
