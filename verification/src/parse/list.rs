//! Lists: runs of lines that begin with `*`, `#`, `;` or `:`, nested by the
//! length of that run of markers.

use crate::ast::blocks::{
    block_view, blocks_view, item_view, items_view, BlockKind, BlockKindView, BlockNode,
    BlockNodeView, ListItem, ListItemView, ListMarker,
};
use crate::ast::bounds::{block_within, blocks_within, item_within, items_within};
use crate::ast::diagnostic::{diagnostics_view, Diagnostic, DiagnosticView};
use crate::ast::nodes::inlines_view;
use crate::parse::blocks::{
    is_line_blank, is_list_line, is_marker, line_blank, line_ok, line_span, list_line, marker,
};
use crate::parse::inline::{
    diags_grow, inlines, lemma_concat_assoc, mk_span, parse_inlines_in, push_warning, span_at,
    warning, MAX_INLINE_DEPTH,
};
use crate::parse::util::{cr_end, lines_wf, strip_cr_end, LineRange};
use crate::text::{blank, byte_at, is_blank, is_byte, skip_ws, trim_start, SPACE};
use vstd::prelude::*;

verus! {

/// How deep lists may nest. A longer run of markers counts as this many.
pub const MAX_LIST_DEPTH: usize = 12;

/// The end of the run of list markers that starts at `lo`.
pub open spec fn markers_end(s: Seq<u8>, lo: int, hi: int) -> int
    decreases hi - lo,
{
    if 0 <= lo < hi <= s.len() && is_marker(s[lo]) {
        markers_end(s, lo + 1, hi)
    } else {
        lo
    }
}

fn scan_markers(s: &[u8], lo: usize, hi: usize) -> (p: usize)
    requires
        lo <= hi <= s.len(),
    ensures
        p == markers_end(s@, lo as int, hi as int),
        lo <= p <= hi,
{
    let mut p: usize = lo;
    while p < hi && marker(s[p])
        invariant
            lo <= p <= hi <= s.len(),
            markers_end(s@, p as int, hi as int) == markers_end(s@, lo as int, hi as int),
        decreases hi - p,
    {
        p = p + 1;
    }
    p
}

pub open spec fn marker_of(b: u8) -> ListMarker {
    if b == 35 {
        ListMarker::Ordered
    } else if b == 59 {
        ListMarker::Term
    } else if b == 58 {
        ListMarker::Definition
    } else {
        ListMarker::Unordered
    }
}

fn marker_kind(b: u8) -> (m: ListMarker)
    ensures
        m == marker_of(b),
{
    if b == 35 {
        ListMarker::Ordered
    } else if b == 59 {
        ListMarker::Term
    } else if b == 58 {
        ListMarker::Definition
    } else {
        ListMarker::Unordered
    }
}

/// The child list as a block: it spans from its first item to its last.
pub open spec fn list_block(child: Seq<ListItemView>) -> BlockNodeView {
    BlockNodeView {
        span: child[0].span.spec_cover(child[child.len() - 1].span),
        kind: BlockKindView::List { items: child },
    }
}

/// The items of a context after the context below it was closed: the child
/// list goes into the last item, or, where there is no item, the child's
/// items take the context's place.
pub open spec fn attach(items: Seq<ListItemView>, child: Seq<ListItemView>) -> Seq<ListItemView> {
    if items.len() == 0 {
        child
    } else if child.len() == 0 {
        items
    } else {
        let last = items[items.len() - 1];
        items.update(
            items.len() - 1,
            ListItemView {
                span: last.span,
                marker: last.marker,
                blocks: last.blocks.push(list_block(child)),
            },
        )
    }
}

/// The stack of open contexts with its top closed into the one below.
pub open spec fn close_top(stack: Seq<Seq<ListItemView>>) -> Seq<Seq<ListItemView>> {
    stack.subrange(0, stack.len() - 2).push(
        attach(stack[stack.len() - 2], stack[stack.len() - 1]),
    )
}

/// The stack closed down to `depth` contexts.
pub open spec fn shrink(stack: Seq<Seq<ListItemView>>, depth: int) -> Seq<Seq<ListItemView>>
    decreases stack.len(),
{
    if stack.len() > depth && stack.len() >= 2 {
        shrink(close_top(stack), depth)
    } else {
        stack
    }
}

pub open spec fn dummy_item(line: LineRange) -> ListItemView {
    ListItemView {
        span: span_at(0, line.start as int, line.start as int),
        marker: ListMarker::Unordered,
        blocks: Seq::empty(),
    }
}

pub open spec fn missing_parent(line: LineRange) -> DiagnosticView {
    warning(
        "wikitext.list.missing_parent"@,
        "Nested list item without a parent; inserting dummy item"@,
        line_span(line),
    )
}

/// The stack opened up to `depth` contexts for an item on `line`. A context
/// that is opened below one without items gets an empty item to hang on,
/// with a warning.
pub open spec fn grow(stack: Seq<Seq<ListItemView>>, depth: int, line: LineRange) -> (
    Seq<Seq<ListItemView>>,
    Seq<DiagnosticView>,
)
    decreases depth - stack.len(),
{
    if 0 < stack.len() < depth {
        let top = stack[stack.len() - 1];
        if top.len() == 0 {
            let rest = grow(
                stack.update(stack.len() - 1, seq![dummy_item(line)]).push(Seq::empty()),
                depth,
                line,
            );
            (rest.0, seq![missing_parent(line)] + rest.1)
        } else {
            grow(stack.push(Seq::empty()), depth, line)
        }
    } else {
        (stack, Seq::empty())
    }
}

/// What one list line holds: the depth of its item, the item's marker, and
/// where its content starts.
pub open spec fn item_head(s: Seq<u8>, line: LineRange) -> (int, ListMarker, int) {
    let te = cr_end(s, line.start as int, line.end as int);
    let ms = trim_start(s, line.start as int, te);
    let pe = markers_end(s, ms, te);
    (
        if pe - ms > MAX_LIST_DEPTH {
            MAX_LIST_DEPTH as int
        } else {
            pe - ms
        },
        marker_of(s[pe - 1]),
        if byte_at(s, pe, line.end as int, SPACE) {
            pe + 1
        } else {
            pe
        },
    )
}

/// The run of markers on the line is longer than lists may nest.
pub open spec fn too_deep(s: Seq<u8>, line: LineRange) -> bool {
    let te = cr_end(s, line.start as int, line.end as int);
    let ms = trim_start(s, line.start as int, te);
    markers_end(s, ms, te) - ms > MAX_LIST_DEPTH
}

pub open spec fn depth_clamped(line: LineRange) -> DiagnosticView {
    warning(
        "wikitext.list.depth_clamped"@,
        "List nesting too deep; depth clamped"@,
        line_span(line),
    )
}

/// The item that the line gives: its content from `cs` on, parsed as inline
/// content into one paragraph, unless it is blank.
#[verifier::opaque]
pub open spec fn line_item(s: Seq<u8>, line: LineRange, marker: ListMarker, cs: int) -> (
    ListItemView,
    Seq<DiagnosticView>,
) {
    let inl = inlines(s, cs, line.end as int, 0, MAX_INLINE_DEPTH as nat);
    if !is_blank(s, cs, line.end as int) {
        (
            ListItemView {
                span: line_span(line),
                marker,
                blocks: if inl.nodes.len() > 0 {
                    seq![
                        BlockNodeView {
                            span: span_at(0, cs, line.end as int),
                            kind: BlockKindView::Paragraph { content: inl.nodes },
                        },
                    ]
                } else {
                    Seq::empty()
                },
            },
            inl.diags,
        )
    } else {
        (ListItemView { span: line_span(line), marker, blocks: Seq::empty() }, Seq::empty())
    }
}

pub open spec fn with_item(stack: Seq<Seq<ListItemView>>, item: ListItemView) -> Seq<
    Seq<ListItemView>,
> {
    stack.update(stack.len() - 1, stack[stack.len() - 1].push(item))
}

/// The stack after one list line, and the diagnostics that the line gives.
pub open spec fn list_step(s: Seq<u8>, line: LineRange, stack: Seq<Seq<ListItemView>>) -> (
    Seq<Seq<ListItemView>>,
    Seq<DiagnosticView>,
) {
    let head = item_head(s, line);
    let clamp = if too_deep(s, line) {
        seq![depth_clamped(line)]
    } else {
        Seq::empty()
    };
    let grown = grow(shrink(stack, head.0), head.0, line);
    let item = line_item(s, line, head.1, head.2);
    (with_item(grown.0, item.0), clamp + grown.1 + item.1)
}

/// The stack after the list lines from the `k`-th on, the index of the first
/// line that is no list line, and the diagnostics.
pub open spec fn list_from(
    s: Seq<u8>,
    lines: Seq<LineRange>,
    k: int,
    stack: Seq<Seq<ListItemView>>,
) -> (Seq<Seq<ListItemView>>, int, Seq<DiagnosticView>)
    decreases lines.len() - k,
{
    if k < 0 || k >= lines.len() || line_blank(s, lines[k]) || !list_line(s, lines[k]) {
        (stack, k, Seq::empty())
    } else {
        let step = list_step(s, lines[k], stack);
        let rest = list_from(s, lines, k + 1, step.0);
        (rest.0, rest.1, step.1 + rest.2)
    }
}

/// The list that starts on the `i`-th line, the index of the next line, and
/// the diagnostics.
#[verifier::opaque]
pub open spec fn list_at(s: Seq<u8>, lines: Seq<LineRange>, i: int) -> (
    BlockNodeView,
    int,
    Seq<DiagnosticView>,
) {
    let r = list_from(s, lines, i, seq![Seq::empty()]);
    let items = shrink(r.0, 1)[0];
    (
        BlockNodeView {
            span: if items.len() == 0 {
                line_span(lines[i])
            } else {
                items[0].span.spec_cover(items[items.len() - 1].span)
            },
            kind: BlockKindView::List { items },
        },
        r.1,
        r.2,
    )
}

pub open spec fn stack_view(stack: Seq<Vec<ListItem>>) -> Seq<Seq<ListItemView>> {
    Seq::new(stack.len(), |j: int| items_view(stack[j]@))
}

pub open spec fn stack_within(stack: Seq<Vec<ListItem>>, len: int) -> bool {
    forall|j: int| 0 <= j < stack.len() ==> items_within(items_view((#[trigger] stack[j])@), len)
}

proof fn lemma_items_view_push(v: Seq<ListItem>, it: ListItem)
    ensures
        items_view(v.push(it)) =~= items_view(v).push(item_view(it)),
{
}

proof fn lemma_items_view_drop_last(v: Seq<ListItem>)
    requires
        v.len() > 0,
    ensures
        items_view(v.drop_last()) =~= items_view(v).drop_last(),
        items_view(v)[v.len() - 1] == item_view(v[v.len() - 1]),
{
}

proof fn lemma_blocks_view_push(v: Seq<BlockNode>, b: BlockNode)
    ensures
        blocks_view(v.push(b)) =~= blocks_view(v).push(block_view(b)),
{
}

/// Closes the child list into the parent's items.
#[verifier::rlimit(40)]
fn attach_child(parent: Vec<ListItem>, child: Vec<ListItem>, Ghost(len): Ghost<int>) -> (out: Vec<
    ListItem,
>)
    requires
        items_within(items_view(parent@), len),
        items_within(items_view(child@), len),
    ensures
        items_view(out@) == attach(items_view(parent@), items_view(child@)),
        items_within(items_view(out@), len),
{
    let mut parent = parent;
    if parent.len() == 0 {
        return child;
    }
    if child.len() == 0 {
        return parent;
    }
    let ghost pv = items_view(parent@);
    let ghost cv = items_view(child@);
    let span = child[0].span.cover(child[child.len() - 1].span);
    proof {
        lemma_items_view_drop_last(parent@);
        assert(cv[0] == item_view(child@[0]));
        assert(cv[cv.len() - 1] == item_view(child@[child@.len() - 1]));
        assert(item_within(cv[0], len));
        assert(item_within(cv[cv.len() - 1], len));
        assert(item_within(pv[pv.len() - 1], len));
    }
    let mut item = parent.pop().unwrap();
    let ghost before = item;
    let block = BlockNode { span, kind: BlockKind::List { items: child } };
    assert(block_view(block) == list_block(cv));
    assert(block_within(block_view(block), len));
    let mut blocks = item.blocks;
    proof {
        lemma_blocks_view_push(blocks@, block);
    }
    blocks.push(block);
    let item2 = ListItem { span: item.span, marker: item.marker, blocks };
    proof {
        lemma_items_view_push(parent@, item2);
        assert(blocks_within(blocks_view(item2.blocks@), len)) by {
            let bv = blocks_view(item2.blocks@);
            assert forall|i: int| 0 <= i < bv.len() implies block_within(#[trigger] bv[i], len) by {
                if i < bv.len() - 1 {
                    assert(bv[i] == blocks_view(before.blocks@)[i]);
                }
            }
        }
        assert(item_within(item_view(item2), len));
    }
    parent.push(item2);
    assert(items_view(parent@) =~= attach(pv, cv));
    assert(items_within(items_view(parent@), len)) by {
        let ov = items_view(parent@);
        assert forall|i: int| 0 <= i < ov.len() implies item_within(#[trigger] ov[i], len) by {
            if i < ov.len() - 1 {
                assert(ov[i] == pv[i]);
            }
        }
    }
    parent
}

fn close_top_ctx(stack: &mut Vec<Vec<ListItem>>, Ghost(len): Ghost<int>)
    requires
        old(stack)@.len() >= 2,
        stack_within(old(stack)@, len),
    ensures
        stack_view(final(stack)@) == close_top(stack_view(old(stack)@)),
        final(stack)@.len() == old(stack)@.len() - 1,
        stack_within(final(stack)@, len),
{
    let ghost sv = stack_view(stack@);
    let ghost s0 = stack@;
    let child = stack.pop().unwrap();
    let parent = stack.pop().unwrap();
    assert(items_within(items_view(child@), len)) by {
        assert(child == s0[s0.len() - 1]);
    }
    assert(items_within(items_view(parent@), len)) by {
        assert(parent == s0[s0.len() - 2]);
    }
    let ghost s2 = stack@;
    let merged = attach_child(parent, child, Ghost(len));
    stack.push(merged);
    assert(stack_view(stack@) =~= close_top(sv));
    assert(stack_within(stack@, len)) by {
        assert forall|j: int| 0 <= j < stack@.len() implies items_within(
            items_view((#[trigger] stack@[j])@),
            len,
        ) by {
            if j < stack@.len() - 1 {
                assert(stack@[j] == s0[j]);
            }
        }
    }
}

fn shrink_stack(stack: &mut Vec<Vec<ListItem>>, depth: usize, Ghost(len): Ghost<int>)
    requires
        old(stack)@.len() >= 1,
        depth >= 1,
        stack_within(old(stack)@, len),
    ensures
        stack_view(final(stack)@) == shrink(stack_view(old(stack)@), depth as int),
        1 <= final(stack)@.len() <= depth || final(stack)@.len() == old(stack)@.len(),
        final(stack)@.len() <= old(stack)@.len(),
        final(stack)@.len() >= 1,
        old(stack)@.len() >= depth ==> final(stack)@.len() == depth,
        stack_within(final(stack)@, len),
{
    while stack.len() > depth
        invariant
            stack@.len() >= 1,
            depth >= 1,
            stack@.len() <= old(stack)@.len(),
            old(stack)@.len() >= depth ==> stack@.len() >= depth,
            stack_within(stack@, len),
            shrink(stack_view(stack@), depth as int) == shrink(
                stack_view(old(stack)@),
                depth as int,
            ),
        decreases stack@.len(),
    {
        close_top_ctx(stack, Ghost(len));
    }
}

#[verifier::rlimit(40)]
fn grow_stack(
    stack: &mut Vec<Vec<ListItem>>,
    depth: usize,
    line: LineRange,
    diags: &mut Vec<Diagnostic>,
    Ghost(len): Ghost<int>,
)
    requires
        old(stack)@.len() >= 1,
        line_ok(line, len),
        stack_within(old(stack)@, len),
    ensures
        stack_view(final(stack)@) == grow(stack_view(old(stack)@), depth as int, line).0,
        diags_grow(
            old(diags)@,
            final(diags)@,
            grow(stack_view(old(stack)@), depth as int, line).1,
        ),
        final(stack)@.len() >= 1,
        final(stack)@.len() >= old(stack)@.len(),
        old(stack)@.len() <= depth ==> final(stack)@.len() == depth,
        old(stack)@.len() > depth ==> final(stack)@.len() == old(stack)@.len(),
        stack_within(final(stack)@, len),
{
    let ghost goal = grow(stack_view(stack@), depth as int, line);
    let ghost d_in = diagnostics_view(diags@);
    while stack.len() < depth
        invariant
            stack@.len() >= 1,
            stack@.len() >= old(stack)@.len(),
            old(stack)@.len() <= depth ==> stack@.len() <= depth,
            old(stack)@.len() > depth ==> stack@.len() == old(stack)@.len(),
            line_ok(line, len),
            stack_within(stack@, len),
            grow(stack_view(stack@), depth as int, line).0 == goal.0,
            diagnostics_view(diags@) + grow(stack_view(stack@), depth as int, line).1 =~= d_in
                + goal.1,
        decreases depth - stack@.len(),
    {
        let ghost sv = stack_view(stack@);
        let ghost s0 = stack@;
        let ghost d0 = diagnostics_view(diags@);
        let mut top = stack.pop().unwrap();
        assert(top == s0[s0.len() - 1]);
        assert(sv[sv.len() - 1] == items_view(top@));
        if top.len() == 0 {
            push_warning(
                diags,
                "wikitext.list.missing_parent",
                "Nested list item without a parent; inserting dummy item",
                mk_span(0, line.start, line.end),
            );
            let item = ListItem {
                span: mk_span(0, line.start, line.start),
                marker: ListMarker::Unordered,
                blocks: Vec::new(),
            };
            assert(item_view(item) == dummy_item(line)) by {
                assert(blocks_view(item.blocks@) =~= Seq::empty());
            }
            proof {
                lemma_items_view_push(top@, item);
            }
            top.push(item);
            assert(items_view(top@) =~= seq![dummy_item(line)]);
            proof {
                let rest = grow(
                    sv.update(sv.len() - 1, seq![dummy_item(line)]).push(Seq::empty()),
                    depth as int,
                    line,
                );
                lemma_concat_assoc(d0, seq![missing_parent(line)], rest.1);
            }
        }
        assert(items_within(items_view(top@), len));
        stack.push(top);
        let fresh: Vec<ListItem> = Vec::new();
        assert(items_view(fresh@) =~= Seq::empty());
        stack.push(fresh);
        assert(stack_view(stack@) =~= if sv[sv.len() - 1].len() == 0 {
            sv.update(sv.len() - 1, seq![dummy_item(line)]).push(Seq::empty())
        } else {
            sv.push(Seq::empty())
        });
        assert(stack_within(stack@, len)) by {
            assert forall|j: int| 0 <= j < stack@.len() implies items_within(
                items_view((#[trigger] stack@[j])@),
                len,
            ) by {
                if j < s0.len() - 1 {
                    assert(stack@[j] == s0[j]);
                }
            }
        }
    }
}

/// Reads the item that a list line holds.
fn parse_line_item(
    s: &[u8],
    line: LineRange,
    marker: ListMarker,
    cs: usize,
    diags: &mut Vec<Diagnostic>,
) -> (item: ListItem)
    requires
        line_ok(line, s@.len() as int),
        line.start <= cs <= line.end,
    ensures
        item_view(item) == line_item(s@, line, marker, cs as int).0,
        diags_grow(old(diags)@, final(diags)@, line_item(s@, line, marker, cs as int).1),
        item_within(item_view(item), s@.len() as int),
{
    reveal(line_item);
    let mut blocks: Vec<BlockNode> = Vec::new();
    assert(blocks_view(blocks@) =~= Seq::empty());
    if !blank(s, cs, line.end) {
        let nodes = parse_inlines_in(s, cs, line.end, 0, MAX_INLINE_DEPTH, diags);
        if nodes.len() > 0 {
            let block = BlockNode {
                span: mk_span(0, cs, line.end),
                kind: BlockKind::Paragraph { content: nodes },
            };
            proof {
                crate::ast::bounds::lemma_inlines_within_longer(
                    inlines_view(nodes@),
                    line.end as int,
                    s@.len() as int,
                );
                lemma_blocks_view_push(blocks@, block);
            }
            blocks.push(block);
            assert(blocks_view(blocks@) =~= seq![block_view(block)]);
        }
    }
    ListItem { span: mk_span(0, line.start, line.end), marker, blocks }
}

proof fn lemma_markers_end_bounds(s: Seq<u8>, lo: int, hi: int)
    requires
        0 <= lo <= hi <= s.len(),
    ensures
        lo <= markers_end(s, lo, hi) <= hi,
    decreases hi - lo,
{
    if lo < hi && is_marker(s[lo]) {
        lemma_markers_end_bounds(s, lo + 1, hi);
    }
}

/// Reads the head of a list line: the item's depth, its marker, where its
/// content starts, and whether the depth was clamped.
fn read_item_head(s: &[u8], line: LineRange) -> (r: (usize, ListMarker, usize, bool))
    requires
        line_ok(line, s@.len() as int),
        list_line(s@, line),
    ensures
        r.0 == item_head(s@, line).0,
        r.1 == item_head(s@, line).1,
        r.2 == item_head(s@, line).2,
        r.3 == too_deep(s@, line),
        1 <= r.0 <= MAX_LIST_DEPTH,
        line.start <= r.2 <= line.end,
{
    let te = strip_cr_end(s, line.start, line.end);
    let ms = skip_ws(s, line.start, te);
    let pe = scan_markers(s, ms, te);
    proof {
        assert(ms < te && is_marker(s@[ms as int]));
        lemma_markers_end_bounds(s@, ms + 1, te as int);
        assert(markers_end(s@, ms as int, te as int) == markers_end(s@, ms + 1, te as int));
    }
    let raw = pe - ms;
    let depth = if raw > MAX_LIST_DEPTH {
        MAX_LIST_DEPTH
    } else {
        raw
    };
    let m = marker_kind(s[pe - 1]);
    let cs = if is_byte(s, pe, line.end, SPACE) {
        pe + 1
    } else {
        pe
    };
    (depth, m, cs, raw > MAX_LIST_DEPTH)
}

/// Appends an item to the innermost open context.
fn add_item(stack: &mut Vec<Vec<ListItem>>, item: ListItem, Ghost(len): Ghost<int>)
    requires
        old(stack)@.len() >= 1,
        stack_within(old(stack)@, len),
        item_within(item_view(item), len),
    ensures
        stack_view(final(stack)@) == with_item(stack_view(old(stack)@), item_view(item)),
        final(stack)@.len() == old(stack)@.len(),
        stack_within(final(stack)@, len),
{
    let ghost grown = stack_view(stack@);
    let ghost g0 = stack@;
    let mut top = stack.pop().unwrap();
    assert(top == g0[g0.len() - 1]);
    proof {
        lemma_items_view_push(top@, item);
    }
    top.push(item);
    assert(items_within(items_view(top@), len)) by {
        let tv = items_view(top@);
        assert forall|j: int| 0 <= j < tv.len() implies item_within(#[trigger] tv[j], len) by {
            if j < tv.len() - 1 {
                assert(tv[j] == items_view(g0[g0.len() - 1]@)[j]);
            }
        }
    }
    stack.push(top);
    assert(stack_view(stack@) =~= with_item(grown, item_view(item)));
    assert(stack_within(stack@, len)) by {
        assert forall|j: int| 0 <= j < stack@.len() implies items_within(
            items_view((#[trigger] stack@[j])@),
            len,
        ) by {
            if j < stack@.len() - 1 {
                assert(stack@[j] == g0[j]);
            }
        }
    }
}

/// Takes one list line onto the stack of open contexts.
#[verifier::rlimit(40)]
fn push_list_line(
    s: &[u8],
    line: LineRange,
    stack: &mut Vec<Vec<ListItem>>,
    diags: &mut Vec<Diagnostic>,
)
    requires
        line_ok(line, s@.len() as int),
        list_line(s@, line),
        old(stack)@.len() >= 1,
        stack_within(old(stack)@, s@.len() as int),
    ensures
        stack_view(final(stack)@) == list_step(s@, line, stack_view(old(stack)@)).0,
        diags_grow(old(diags)@, final(diags)@, list_step(s@, line, stack_view(old(stack)@)).1),
        final(stack)@.len() >= 1,
        stack_within(final(stack)@, s@.len() as int),
{
    let ghost len = s@.len() as int;
    let ghost sv = stack_view(stack@);
    let ghost d0 = diagnostics_view(diags@);
    let (depth, m, cs, clamped) = read_item_head(s, line);
    if clamped {
        push_warning(
            diags,
            "wikitext.list.depth_clamped",
            "List nesting too deep; depth clamped",
            mk_span(0, line.start, line.end),
        );
    }
    let ghost d1 = diagnostics_view(diags@);
    shrink_stack(stack, depth, Ghost(len));
    grow_stack(stack, depth, line, diags, Ghost(len));
    let ghost d2 = diagnostics_view(diags@);
    let item = parse_line_item(s, line, m, cs, diags);
    let ghost d3 = diagnostics_view(diags@);
    add_item(stack, item, Ghost(len));
    proof {
        let clamp = if too_deep(s@, line) {
            seq![depth_clamped(line)]
        } else {
            Seq::<DiagnosticView>::empty()
        };
        let gr = grow(shrink(sv, depth as int), depth as int, line);
        let it = line_item(s@, line, m, cs as int);
        assert(d1 =~= d0 + clamp);
        assert(d2 =~= d1 + gr.1);
        assert(d3 =~= d2 + it.1);
        assert(d3 =~= d0 + (clamp + gr.1 + it.1));
    }
}

/// Reads the list that starts on the `i`-th line, which is a list line.
#[verifier::rlimit(40)]
pub fn parse_list_block(s: &[u8], lines: &[LineRange], i: usize, diags: &mut Vec<Diagnostic>) -> (r:
    (BlockNode, usize))
    requires
        lines_wf(lines@, s@.len() as int),
        i < lines.len(),
        !line_blank(s@, lines@[i as int]),
        list_line(s@, lines@[i as int]),
    ensures
        block_view(r.0) == list_at(s@, lines@, i as int).0,
        r.1 == list_at(s@, lines@, i as int).1,
        diags_grow(old(diags)@, final(diags)@, list_at(s@, lines@, i as int).2),
        i < r.1 <= lines.len(),
        block_within(block_view(r.0), s@.len() as int),
{
    reveal(list_at);
    let ghost len = s@.len() as int;
    let mut stack: Vec<Vec<ListItem>> = Vec::new();
    let first: Vec<ListItem> = Vec::new();
    assert(items_view(first@) =~= Seq::empty());
    stack.push(first);
    assert(stack_view(stack@) =~= seq![Seq::empty()]);
    let ghost goal = list_from(s@, lines@, i as int, seq![Seq::empty()]);
    let ghost d_in = diagnostics_view(diags@);
    let mut k: usize = i;
    loop
        invariant
            i <= k <= lines.len(),
            i < lines.len(),
            k == i ==> !line_blank(s@, lines@[i as int]) && list_line(s@, lines@[i as int]),
            lines_wf(lines@, s@.len() as int),
            len == s@.len(),
            stack@.len() >= 1,
            stack_within(stack@, len),
            list_from(s@, lines@, k as int, stack_view(stack@)).0 == goal.0,
            list_from(s@, lines@, k as int, stack_view(stack@)).1 == goal.1,
            diagnostics_view(diags@) + list_from(s@, lines@, k as int, stack_view(stack@)).2
                =~= d_in + goal.2,
        ensures
            i < k <= lines.len(),
            stack@.len() >= 1,
            stack_within(stack@, len),
            stack_view(stack@) == goal.0,
            k == goal.1,
            diagnostics_view(diags@) =~= d_in + goal.2,
        decreases lines.len() - k,
    {
        if k >= lines.len() {
            break ;
        }
        let line = lines[k];
        if is_line_blank(s, line) || !is_list_line(s, line) {
            break ;
        }
        let ghost sv = stack_view(stack@);
        let ghost d0 = diagnostics_view(diags@);
        proof {
            let step = list_step(s@, line, sv);
            let rest = list_from(s@, lines@, k + 1, step.0);
            lemma_concat_assoc(d0, step.1, rest.2);
        }
        push_list_line(s, line, &mut stack, diags);
        k = k + 1;
    }
    shrink_stack(&mut stack, 1, Ghost(len));
    let ghost fin = stack@;
    let items = stack.pop().unwrap();
    assert(items == fin[0]);
    assert(items_view(items@) == shrink(goal.0, 1)[0]);
    let ghost iv = items_view(items@);
    let span = if items.len() == 0 {
        mk_span(0, lines[i].start, lines[i].end)
    } else {
        proof {
            assert(iv[0] == item_view(items@[0]));
            assert(iv[iv.len() - 1] == item_view(items@[items@.len() - 1]));
            assert(item_within(iv[0], len));
            assert(item_within(iv[iv.len() - 1], len));
        }
        items[0].span.cover(items[items.len() - 1].span)
    };
    (BlockNode { span, kind: BlockKind::List { items } }, k)
}

} // verus!
