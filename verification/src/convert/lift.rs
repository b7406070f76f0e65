//! Lifting wiki tables out of the text, converted.

use crate::convert::blocks::{blocks_view, lemma_blocks_push, placeholder, push_placeholder};
use crate::convert::table::{table_markdown, trimmed_end, wikitable_to_markdown};
use crate::emit::{copy_bytes, push_bytes, push_str};
use crate::parse::inline::lit;
use crate::render::inline::{opt_bytes_view, trimmed, trimmed_copy};
use crate::text::{
    eq_ci, equals_ci, find_byte, find_ci, first_byte, first_match_ci, matches_at, matches_at_ci,
    skip_ws, skip_ws_back, starts_with, starts_with_ci, trim_start, NL,
};
use vstd::prelude::*;
use vstd::string::*;

verus! {

/// The line opens a `<div>` of the class `noresize`.
pub open spec fn noresize_div_open(line: Seq<u8>) -> bool {
    let l = trimmed(line);
    let n = l.len() as int;
    matches_at_ci(l, 0, n, lit("<div")) && (first_match_ci(l, 0, n, lit("class=\"noresize\""))
        is Some || first_match_ci(l, 0, n, lit("class='noresize'")) is Some || first_match_ci(
        l,
        0,
        n,
        lit("class=noresize"),
    ) is Some)
}

pub fn looks_like_noresize_div_open(line: &[u8]) -> (r: bool)
    ensures
        r == noresize_div_open(line@),
{
    let l = trimmed_copy(line);
    let n: usize = l.len();
    if !starts_with_ci(l.as_slice(), 0, n, "<div".as_bytes()) {
        return false;
    }
    find_ci(l.as_slice(), 0, n, "class=\"noresize\"".as_bytes()).is_some() || find_ci(
        l.as_slice(),
        0,
        n,
        "class='noresize'".as_bytes(),
    ).is_some() || find_ci(l.as_slice(), 0, n, "class=noresize".as_bytes()).is_some()
}

/// The line is `</div>`.
pub open spec fn div_close(line: Seq<u8>) -> bool {
    equals_ci(trimmed(line), 0, trimmed(line).len() as int, lit("</div>"))
}

pub fn looks_like_div_close(line: &[u8]) -> (r: bool)
    ensures
        r == div_close(line@),
{
    let l = trimmed_copy(line);
    eq_ci(l.as_slice(), 0, l.len(), "</div>".as_bytes())
}

/// What has been read of a text while its tables are lifted out.
pub struct LiftState {
    pub out: Seq<u8>,
    pub tables: Seq<Seq<u8>>,
    /// How many `{|` are open.
    pub depth: nat,
    /// The table that is being gathered.
    pub buf: Seq<u8>,
    /// A `noresize` division that was opened on the line before.
    pub pending_div: Option<Seq<u8>>,
    /// The next `</div>` closes a division that wrapped a table, and goes.
    pub drop_close: bool,
}

/// A table as it is put aside: converted, or kept as it stands in a fence
/// where it cannot be converted.
pub open spec fn table_block(buf: Seq<u8>) -> Seq<u8> {
    match table_markdown(buf) {
        Some(t) => t,
        None => lit("```text\n") + trimmed_end(buf) + lit("\n```"),
    }
}

/// What one line, with its newline, does to the state.
///
/// Outside a table: a `noresize` division is held back; a line that starts
/// with `{|` opens a table, and a division held back is dropped with its
/// closing tag; any other line goes to the output. Inside a table the lines
/// are gathered until the table is closed; then the table is put aside and
/// a placeholder goes to the output.
#[verifier::opaque]
pub open spec fn lift_line(chunk: Seq<u8>, st: LiftState) -> LiftState {
    let n = chunk.len() as int;
    let t = chunk.subrange(trim_start(chunk, 0, n), n);
    let opens = matches_at(t, 0, t.len() as int, lit("{|"));
    let closes = matches_at(t, 0, t.len() as int, lit("|}"));
    if st.depth == 0 {
        if noresize_div_open(t) {
            LiftState { pending_div: Some(chunk), ..st }
        } else if opens {
            LiftState {
                depth: 1,
                buf: chunk,
                pending_div: None,
                drop_close: st.drop_close || st.pending_div is Some,
                ..st
            }
        } else {
            let out = match st.pending_div {
                Some(d) => st.out + d,
                None => st.out,
            };
            if st.drop_close && div_close(t) {
                LiftState { out, pending_div: None, drop_close: false, ..st }
            } else {
                LiftState { out: out + chunk, pending_div: None, drop_close: false, ..st }
            }
        }
    } else {
        let d1 = if opens {
            st.depth + 1
        } else {
            st.depth
        };
        let depth = if closes && d1 > 0 {
            (d1 - 1) as nat
        } else {
            d1
        };
        let buf = st.buf + chunk;
        if depth == 0 {
            let tables = st.tables.push(table_block(buf));
            LiftState {
                out: st.out + (seq![NL] + placeholder(lit("TABLE"), tables.len()) + seq![NL]),
                tables,
                depth,
                buf,
                ..st
            }
        } else {
            LiftState { depth, buf, ..st }
        }
    }
}

/// The state after the lines of `s` from `start` on.
pub open spec fn lifted_from(s: Seq<u8>, start: int, st: LiftState) -> LiftState
    decreases s.len() - start,
{
    if start < 0 || start >= s.len() {
        st
    } else {
        let end = match first_byte(s, start, s.len() as int, NL) {
            Some(p) => p + 1,
            None => s.len() as int,
        };
        if start < end <= s.len() {
            lifted_from(s, end, lift_line(s.subrange(start, end), st))
        } else {
            st
        }
    }
}

/// A text with its tables lifted out: the text with a placeholder for each
/// table, and the tables. A division held back at the end, and a table that
/// is never closed, go to the output as they stand.
pub open spec fn tables_lifted(s: Seq<u8>) -> (Seq<u8>, Seq<Seq<u8>>) {
    let st = lifted_from(
        s,
        0,
        LiftState {
            out: Seq::empty(),
            tables: Seq::empty(),
            depth: 0,
            buf: Seq::empty(),
            pending_div: None,
            drop_close: false,
        },
    );
    (
        (match st.pending_div {
            Some(d) => st.out + d,
            None => st.out,
        }) + (if st.depth != 0 && st.buf.len() > 0 {
            st.buf
        } else {
            Seq::empty()
        }),
        st.tables,
    )
}

pub struct LiftBuilder {
    pub out: Vec<u8>,
    pub tables: Vec<Vec<u8>>,
    pub depth: usize,
    pub buf: Vec<u8>,
    pub pending_div: Option<Vec<u8>>,
    pub drop_close: bool,
}

impl View for LiftBuilder {
    type V = LiftState;

    open spec fn view(&self) -> LiftState {
        LiftState {
            out: self.out@,
            tables: blocks_view(self.tables@),
            depth: self.depth as nat,
            buf: self.buf@,
            pending_div: opt_bytes_view(self.pending_div),
            drop_close: self.drop_close,
        }
    }
}

fn make_table_block(buf: &[u8]) -> (out: Vec<u8>)
    ensures
        out@ == table_block(buf@),
{
    match wikitable_to_markdown(buf) {
        Some(t) => t,
        None => {
            let mut out: Vec<u8> = Vec::new();
            push_str(&mut out, "```text\n");
            let e = skip_ws_back(buf, 0, buf.len());
            out.extend_from_slice(&buf[0..e]);
            push_str(&mut out, "\n```");
            assert(out@ =~= lit("```text\n") + trimmed_end(buf@) + lit("\n```"));
            out
        },
    }
}

#[verifier::rlimit(40)]
fn lift_one_line(chunk: &[u8], st: LiftBuilder) -> (out: LiftBuilder)
    requires
        st.depth < usize::MAX,
    ensures
        out@ == lift_line(chunk@, st@),
        out.depth <= st.depth + 1,
{
    reveal(lift_line);
    let n: usize = chunk.len();
    let from = skip_ws(chunk, 0, n);
    let t = &chunk[from..n];
    let opens = starts_with(t, 0, t.len(), "{|".as_bytes());
    let closes = starts_with(t, 0, t.len(), "|}".as_bytes());
    let LiftBuilder { out, tables, depth, buf, pending_div, drop_close } = st;
    if depth == 0 {
        if looks_like_noresize_div_open(t) {
            LiftBuilder { out, tables, depth, buf, pending_div: Some(copy_bytes(chunk)), drop_close }
        } else if opens {
            LiftBuilder {
                out,
                tables,
                depth: 1,
                buf: copy_bytes(chunk),
                pending_div: None,
                drop_close: drop_close || pending_div.is_some(),
            }
        } else {
            let mut out = out;
            match &pending_div {
                Some(d) => push_bytes(&mut out, d.as_slice()),
                None => {},
            }
            if drop_close && looks_like_div_close(t) {
                LiftBuilder { out, tables, depth, buf, pending_div: None, drop_close: false }
            } else {
                push_bytes(&mut out, chunk);
                LiftBuilder { out, tables, depth, buf, pending_div: None, drop_close: false }
            }
        }
    } else {
        let d1: usize = if opens {
            depth + 1
        } else {
            depth
        };
        let d2: usize = if closes && d1 > 0 {
            d1 - 1
        } else {
            d1
        };
        let mut buf = buf;
        push_bytes(&mut buf, chunk);
        if d2 == 0 {
            let block = make_table_block(buf.as_slice());
            let mut tables = tables;
            proof {
                lemma_blocks_push(tables@, block);
            }
            tables.push(block);
            let mut out = out;
            let ghost out0 = out@;
            out.push(NL);
            push_placeholder(&mut out, "TABLE", tables.len());
            out.push(NL);
            assert(out@ =~= out0 + (seq![NL] + placeholder(lit("TABLE"), tables@.len() as nat)
                + seq![NL]));
            LiftBuilder { out, tables, depth: d2, buf, pending_div, drop_close }
        } else {
            LiftBuilder { out, tables, depth: d2, buf, pending_div, drop_close }
        }
    }
}

/// Lifts the tables out of a text, converted.
pub fn lift_and_convert_tables(input: &[u8]) -> (r: (Vec<u8>, Vec<Vec<u8>>))
    ensures
        r.0@ == tables_lifted(input@).0,
        blocks_view(r.1@) == tables_lifted(input@).1,
{
    let tables: Vec<Vec<u8>> = Vec::new();
    assert(blocks_view(tables@) =~= Seq::empty());
    let mut st = LiftBuilder {
        out: Vec::new(),
        tables,
        depth: 0,
        buf: Vec::new(),
        pending_div: None,
        drop_close: false,
    };
    let ghost goal = lifted_from(input@, 0, st@);
    let mut start: usize = 0;
    while start < input.len()
        invariant
            start <= input.len(),
            st.depth <= start,
            lifted_from(input@, start as int, st@) == goal,
        decreases input.len() - start,
    {
        let end = match find_byte(input, start, input.len(), NL) {
            Some(p) => p + 1,
            None => input.len(),
        };
        st = lift_one_line(&input[start..end], st);
        start = end;
    }
    let LiftBuilder { out, tables, depth, buf, pending_div, drop_close } = st;
    let mut out = out;
    match &pending_div {
        Some(d) => push_bytes(&mut out, d.as_slice()),
        None => {},
    }
    if depth != 0 && buf.len() > 0 {
        push_bytes(&mut out, buf.as_slice());
    }
    assert(out@ =~= tables_lifted(input@).0);
    (out, tables)
}

} // verus!
