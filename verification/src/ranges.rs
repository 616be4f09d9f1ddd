//! The range invariant: the range of every node that hangs from the document
//! cuts exactly that node's own markup out of the serialized document.

use vstd::prelude::*;
use crate::dom::TreeView;

verus! {

/// The `k`-th child of `id` starts no earlier than the first child.
proof fn lemma_child_starts(t: TreeView, id: int, k: int)
    requires
        t.wf(),
        t.has(id),
        0 <= k < t.nodes[id].children.len(),
    ensures
        t.nodes[t.nodes[id].children[0] as int].start <= t.nodes[t.nodes[id].children[k] as int].start,
        t.nodes[t.nodes[id].children[k] as int].start <= t.nodes[t.nodes[id].children[k] as int].end,
    decreases k,
{
    assert(t.node_wf(id));
    let c = t.nodes[id].children[k];
    assert(id < c < t.nodes.len());
    assert(t.node_wf(c as int));
    if k > 0 {
        lemma_child_starts(t, id, k - 1);
        let cp = t.nodes[id].children[k - 1];
        assert(t.nodes[c as int].start == t.nodes[cp as int].end);
    }
}

/// The `k`-th child of `id` ends no later than the last child.
proof fn lemma_child_ends(t: TreeView, id: int, k: int)
    requires
        t.wf(),
        t.has(id),
        0 <= k < t.nodes[id].children.len(),
    ensures
        t.nodes[t.nodes[id].children[k] as int].end <= t.nodes[t.nodes[id].children.last() as int].end,
    decreases t.nodes[id].children.len() - k,
{
    assert(t.node_wf(id));
    if k < t.nodes[id].children.len() - 1 {
        lemma_child_ends(t, id, k + 1);
        let c = t.nodes[id].children[k + 1];
        let c0 = t.nodes[id].children[k];
        assert(id < c < t.nodes.len());
        assert(t.node_wf(c as int));
        assert(t.nodes[c as int].start == t.nodes[c0 as int].end);
    }
}

/// Ranges are well nested: a child's range lies between its parent's head and tail.
pub proof fn lemma_child_nested(t: TreeView, id: int, k: int)
    requires
        t.wf(),
        t.has(id),
        0 <= k < t.nodes[id].children.len(),
    ensures
        t.has(t.nodes[id].children[k] as int),
        t.nodes[id].start + t.nodes[id].data.head().len() <= t.nodes[t.nodes[id].children[k] as int].start,
        t.nodes[t.nodes[id].children[k] as int].start <= t.nodes[t.nodes[id].children[k] as int].end,
        t.nodes[t.nodes[id].children[k] as int].end + t.nodes[id].data.tail().len() <= t.nodes[id].end,
{
    assert(t.node_wf(id));
    assert(id < t.nodes[id].children[k] < t.nodes.len());
    lemma_child_starts(t, id, k);
    lemma_child_ends(t, id, k);
}

/// The markup of a node is as long as its range.
pub proof fn lemma_markup_len(t: TreeView, id: int)
    requires
        t.wf(),
        t.has(id),
    ensures
        t.markup(id).len() == t.nodes[id].end - t.nodes[id].start,
    decreases t.nodes.len() - id, 1int, 0int,
{
    assert(t.node_wf(id));
    lemma_content_len(t, id, 0);
}

/// The markup of the children from `from` on fills the rest of the parent's content.
pub proof fn lemma_content_len(t: TreeView, id: int, from: int)
    requires
        t.wf(),
        t.has(id),
        0 <= from <= t.nodes[id].children.len(),
    ensures
        t.content(id, from).len() == if from < t.nodes[id].children.len() {
            t.nodes[id].end - t.nodes[id].data.tail().len() - t.nodes[t.nodes[id].children[from] as int].start
        } else {
            0
        },
    decreases t.nodes.len() - id, 0int, t.nodes[id].children.len() - from,
{
    assert(t.node_wf(id));
    if from < t.nodes[id].children.len() {
        let c = t.nodes[id].children[from];
        assert(id < c < t.nodes.len());
        lemma_markup_len(t, c as int);
        lemma_content_len(t, id, from + 1);
        if from + 1 < t.nodes[id].children.len() {
            let c1 = t.nodes[id].children[from + 1];
            assert(t.nodes[c1 as int].start == t.nodes[c as int].end);
        }
    }
}

/// Inside the markup of the children from `from` on, the `k`-th child stands
/// where its range says, counted from the start of the `from`-th child.
proof fn lemma_child_in_content(t: TreeView, id: int, from: int, k: int)
    requires
        t.wf(),
        t.has(id),
        0 <= from <= k < t.nodes[id].children.len(),
    ensures
        t.nodes[t.nodes[id].children[from] as int].start <= t.nodes[t.nodes[id].children[k] as int].start,
        t.nodes[t.nodes[id].children[k] as int].end - t.nodes[t.nodes[id].children[from] as int].start
            <= t.content(id, from).len(),
        t.content(id, from).subrange(
            t.nodes[t.nodes[id].children[k] as int].start - t.nodes[t.nodes[id].children[from] as int].start,
            t.nodes[t.nodes[id].children[k] as int].end - t.nodes[t.nodes[id].children[from] as int].start,
        ) == t.markup(t.nodes[id].children[k] as int),
    decreases k - from,
{
    assert(t.node_wf(id));
    let cf = t.nodes[id].children[from];
    let ck = t.nodes[id].children[k];
    assert(id < cf < t.nodes.len());
    assert(id < ck < t.nodes.len());
    assert(t.node_wf(cf as int));
    assert(t.node_wf(ck as int));
    lemma_markup_len(t, cf as int);
    lemma_markup_len(t, ck as int);
    lemma_content_len(t, id, from);
    lemma_content_len(t, id, from + 1);
    lemma_child_ends(t, id, k);
    let m = t.markup(cf as int);
    let rest = t.content(id, from + 1);
    assert(t.content(id, from) == m + rest);
    if k == from {
        assert((m + rest).subrange(0, m.len() as int) =~= m);
    } else {
        lemma_child_in_content(t, id, from + 1, k);
        let cn = t.nodes[id].children[from + 1];
        assert(t.nodes[cn as int].start == t.nodes[cf as int].end);
        let a = t.nodes[ck as int].start - t.nodes[cn as int].start;
        let b = t.nodes[ck as int].end - t.nodes[cn as int].start;
        assert((m + rest).subrange(m.len() + a, m.len() + b) =~= rest.subrange(a, b));
    }
}

/// Inside the markup of a node, each child stands where its range says,
/// counted from the start of the node.
pub proof fn lemma_child_in_parent(t: TreeView, id: int, k: int)
    requires
        t.wf(),
        t.has(id),
        0 <= k < t.nodes[id].children.len(),
    ensures
        t.markup(id).subrange(
            t.nodes[t.nodes[id].children[k] as int].start - t.nodes[id].start,
            t.nodes[t.nodes[id].children[k] as int].end - t.nodes[id].start,
        ) == t.markup(t.nodes[id].children[k] as int),
{
    assert(t.node_wf(id));
    lemma_child_in_content(t, id, 0, k);
    lemma_child_nested(t, id, k);
    lemma_content_len(t, id, 0);
    let h = t.nodes[id].data.head();
    let c = t.content(id, 0);
    let tl = t.nodes[id].data.tail();
    let c0 = t.nodes[t.nodes[id].children[0] as int];
    let ck = t.nodes[t.nodes[id].children[k] as int];
    let a = ck.start - c0.start;
    let b = ck.end - c0.start;
    assert(c0.start == t.nodes[id].start + h.len());
    assert((h + c + tl).subrange(h.len() + a, h.len() + b) =~= c.subrange(a, b));
}

/// The range invariant. For every node that hangs from the document, the
/// bytes of the serialized document at `[start, end)` are that node's own
/// markup.
pub proof fn lemma_range_invariant(t: TreeView, id: int)
    requires
        t.wf(),
        t.in_document(id),
    ensures
        0 <= t.nodes[id].start <= t.nodes[id].end <= t.serialization().len(),
        t.serialization().subrange(t.nodes[id].start as int, t.nodes[id].end as int) == t.markup(id),
    decreases id,
{
    lemma_markup_len(t, 0);
    assert(t.node_wf(0));
    if id == 0 {
        assert(t.markup(0).subrange(0, t.markup(0).len() as int) =~= t.markup(0));
    } else {
        assert(t.node_wf(id));
        let p = t.nodes[id].parent.unwrap() as int;
        lemma_range_invariant(t, p);
        assert(t.node_wf(p));
        let k = t.child_index(p, id);
        lemma_child_in_parent(t, p, k);
        lemma_child_nested(t, p, k);
        lemma_markup_len(t, p);
        let s = t.serialization();
        let ps = t.nodes[p].start as int;
        let pe = t.nodes[p].end as int;
        let a = t.nodes[id].start - ps;
        let b = t.nodes[id].end - ps;
        assert(s.subrange(ps, pe).subrange(a, b) =~= s.subrange(ps + a, ps + b));
    }
}

/// Ranges are well nested: the range of a node lies inside the range of its parent.
pub proof fn lemma_nested(t: TreeView, id: int)
    requires
        t.wf(),
        t.has(id),
        t.nodes[id].parent is Some,
    ensures
        t.nodes[t.nodes[id].parent.unwrap() as int].start <= t.nodes[id].start,
        t.nodes[id].end <= t.nodes[t.nodes[id].parent.unwrap() as int].end,
{
    assert(t.node_wf(id));
    let p = t.nodes[id].parent.unwrap() as int;
    let k = t.child_index(p, id);
    lemma_child_nested(t, p, k);
}

} // verus!
