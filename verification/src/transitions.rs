//! Every transition of the tree model keeps the invariant.

use vstd::prelude::*;
use crate::dom::{DataView, NodeView, TreeView};

verus! {

/// A child that is on the open path is the last child of its parent, and the
/// parent is the node just above it on the path.
pub proof fn lemma_child_on_path(t: TreeView, id: int, j: int)
    requires
        t.wf(),
        t.has(id),
        0 <= j < t.nodes[id].children.len(),
        t.open.contains(t.nodes[id].children[j]),
    ensures
        t.open.contains(id as usize),
        id as usize != t.top(),
        j == t.nodes[id].children.len() - 1,
{
    assert(t.node_wf(id));
    let c = t.nodes[id].children[j];
    let m = choose|m: int| 0 <= m < t.open.len() && t.open[m] == c;
    assert(id < c);
    assert(t.open[m] == c);
    assert(m >= 1);
    let pm = t.open[m - 1];
    assert(t.nodes[c as int].parent == Some(pm));
    assert(pm == id as usize);
    if id as usize == t.top() {
        assert(t.open[m - 1] < t.open[m]);
        if m < t.open.len() - 1 {
            assert(t.open[m] < t.open[t.open.len() - 1]);
        }
    }
    let last = t.nodes[id].children.len() - 1;
    assert(t.nodes[id].children[last] == c);
    if j < last {
        assert(t.nodes[id].children[j] < t.nodes[id].children[last]);
    }
}

/// The last child of a node on the open path, other than the innermost, is on the path.
pub proof fn lemma_path_child(t: TreeView, k: int)
    requires
        t.wf(),
        0 <= k < t.open.len() - 1,
    ensures
        t.nodes[t.open[k] as int].children.len() > 0,
        t.nodes[t.open[k] as int].children.last() == t.open[k + 1],
        t.open.contains(t.open[k + 1]),
{
    let id = t.open[k + 1];
    let p = t.open[k];
    assert(t.nodes[id as int].parent == Some(p));
}

/// The tree that holds only the document satisfies the invariant.
pub proof fn lemma_empty_wf()
    ensures
        TreeView::empty().wf(),
        TreeView::empty().serialization() == Seq::<u8>::empty(),
{
    let t = TreeView::empty();
    assert(t.open.contains(0usize)) by {
        assert(t.open[0] == 0usize);
    }
    assert(t.node_wf(0));
    assert(t.markup(0) =~= Seq::<u8>::empty()) by {
        assert(t.content(0, 0) =~= Seq::<u8>::empty());
    }
}

/// What `resized` leaves alone and what it moves.
pub proof fn lemma_resized(t: TreeView, delta: int, written: usize)
    ensures
        t.resized(delta, written).nodes.len() == t.nodes.len(),
        t.resized(delta, written).open == t.open,
        t.resized(delta, written).written == written,
        forall|i: int|
            0 <= i < t.nodes.len() ==> {
                let a = #[trigger] t.resized(delta, written).nodes[i];
                let b = t.nodes[i];
                &&& a.data == b.data
                &&& a.parent == b.parent
                &&& a.children == b.children
                &&& a.start == b.start
                &&& a.end == if t.open.contains(i as usize) {
                    (b.end + delta) as usize
                } else {
                    b.end
                }
            },
{
}

/// `r` has the nodes of `t`, unchanged but for this: the first `depth` nodes
/// on the open path of `t` end `delta` later; the children of the last of
/// them may differ; the next node on the path, if any, may be closed and cut
/// off; and `leaf`, a childless child of the last of them, may hold other
/// data and end elsewhere.
pub open spec fn moved(t: TreeView, r: TreeView, delta: int, depth: int, leaf: int) -> bool {
    &&& 1 <= depth <= t.open.len()
    &&& r.nodes.len() >= t.nodes.len()
    &&& forall|i: int|
        0 <= i < t.nodes.len() ==> {
            let a = #[trigger] r.nodes[i];
            let b = t.nodes[i];
            &&& (a.data == b.data || i == leaf || depth < t.open.len() && i == t.open[depth]
                && a.data == b.data.close())
            &&& (a.parent == b.parent || depth < t.open.len() && i == t.open[depth])
            &&& (i != t.open[depth - 1] ==> a.children == b.children)
            &&& a.start == b.start
            &&& (i == leaf || a.end == if t.open.take(depth).contains(i as usize) {
                (b.end + delta) as usize
            } else {
                b.end
            })
        }
    &&& (0 <= leaf < t.nodes.len() ==> t.nodes[leaf].parent == Some(t.open[depth - 1])
        && t.nodes[leaf].children.len() == 0)
}

/// Membership in a prefix of the open path.
pub proof fn lemma_on_prefix(t: TreeView, depth: int, id: usize)
    requires
        t.wf(),
        1 <= depth <= t.open.len(),
    ensures
        t.open.take(depth).contains(id) <==> exists|m: int| 0 <= m < depth && #[trigger] t.open[m] == id,
        t.open.take(depth).contains(id) ==> t.open.contains(id),
{
    let pre = t.open.take(depth);
    if pre.contains(id) {
        let m = choose|m: int| 0 <= m < pre.len() && pre[m] == id;
        assert(t.open[m] == id);
    }
    if exists|m: int| 0 <= m < depth && #[trigger] t.open[m] == id {
        let m = choose|m: int| 0 <= m < depth && #[trigger] t.open[m] == id;
        assert(pre[m] == id);
    }
}

/// Tiling survives a move for every node whose children are unchanged.
pub proof fn lemma_moved_tiled(t: TreeView, r: TreeView, delta: int, depth: int, leaf: int, id: int)
    requires
        t.wf(),
        moved(t, r, delta, depth, leaf),
        t.has(id),
        id != t.open[depth - 1],
        id != leaf,
        forall|i: int|
            0 <= i < t.nodes.len() && t.open.take(depth).contains(i as usize) ==> 0 <= (
            #[trigger] t.nodes[i]).end + delta <= usize::MAX,
    ensures
        r.tiled(id),
{
    assert(t.node_wf(id));
    let pre = t.open.take(depth);
    let cs = t.nodes[id].children;
    let on = pre.contains(id as usize);
    assert(r.nodes[id].children == cs);
    lemma_on_prefix(t, depth, id as usize);
    if cs.len() > 0 {
        let last = cs.len() - 1;
        assert forall|k: int| 0 <= k < last implies !pre.contains(#[trigger] cs[k]) by {
            lemma_on_prefix(t, depth, cs[k]);
            if t.open.contains(cs[k]) {
                lemma_child_on_path(t, id, k);
            }
        }
        lemma_on_prefix(t, depth, cs[last]);
        if on {
            let m = choose|m: int| 0 <= m < depth && #[trigger] t.open[m] == id as usize;
            assert(m < depth - 1);
            lemma_path_child(t, m);
            assert(t.open[m + 1] == cs[last]);
        } else {
            if pre.contains(cs[last]) {
                let m = choose|m: int| 0 <= m < depth && #[trigger] t.open[m] == cs[last];
                assert(id < cs[last]);
                assert(m >= 1);
                let pm = t.open[m - 1];
                assert(t.nodes[cs[last] as int].parent == Some(pm));
                assert(pm == id as usize);
            }
        }
        assert(id < cs[0] < t.nodes.len());
        assert(id < cs[last] < t.nodes.len());
        assert forall|k: int| 0 <= k < cs.len() implies (#[trigger] cs[k]) != leaf by {
            assert(t.nodes[cs[k] as int].parent == Some(id as usize));
        }
        assert forall|k: int, l: int| 0 <= k && l == k + 1 && l < cs.len() implies r.nodes[(
        #[trigger] cs[l]) as int].start == r.nodes[(#[trigger] cs[k]) as int].end by {
            assert(t.nodes[cs[l] as int].start == t.nodes[cs[k] as int].end);
            assert(!pre.contains(cs[k]));
            assert(id < cs[k] < t.nodes.len());
            assert(id < cs[l] < t.nodes.len());
        }
    } else {
        if on {
            let m = choose|m: int| 0 <= m < depth && #[trigger] t.open[m] == id as usize;
            assert(m < depth - 1);
            lemma_path_child(t, m);
        }
    }
}

/// Links survive a move for every node whose children, and whose parent's
/// children up to it, are unchanged.
pub proof fn lemma_moved_linked(t: TreeView, r: TreeView, delta: int, depth: int, leaf: int, id: int)
    requires
        t.wf(),
        moved(t, r, delta, depth, leaf),
        t.has(id),
        id != t.open[depth - 1],
        depth < t.open.len() ==> id != t.open[depth],
        forall|k: int|
            0 <= k < t.nodes[t.open[depth - 1] as int].children.len() && (depth == t.open.len() || k
                < t.nodes[t.open[depth - 1] as int].children.len() - 1) ==> k < r.nodes[t.open[depth
                - 1] as int].children.len() && r.nodes[t.open[depth - 1] as int].children[k]
                == #[trigger] t.nodes[t.open[depth - 1] as int].children[k],
    ensures
        r.linked(id),
{
    assert(t.node_wf(id));
    let special = t.open[depth - 1] as int;
    if depth < t.open.len() {
        lemma_path_child(t, depth - 1);
        let tp = t.open[depth];
        assert(t.nodes[tp as int].parent == Some(t.open[depth - 1]));
        assert(t.node_wf(special));
        if t.nodes[id].parent == Some(special as usize) {
            let k = t.child_index(special, id);
            let last = t.nodes[special].children.len() - 1;
            assert(t.nodes[special].children[k] == id);
            assert(t.nodes[special].children[last] == tp);
            assert(k < last);
        }
    }
    match t.nodes[id].parent {
        Some(p) => {
            let k = t.child_index(p as int, id);
            assert(t.nodes[p as int].children[k] == id);
            assert(r.nodes[p as int].children[k] == id);
        },
        None => {},
    }
    assert forall|k: int| 0 <= k < r.nodes[id].children.len() implies id < (
    #[trigger] r.nodes[id].children[k]) < r.nodes.len() && r.nodes[r.nodes[id].children[k] as int].parent
        == Some(id as usize) by {
        assert(r.nodes[id].children[k] == t.nodes[id].children[k]);
    }
    assert forall|k: int, l: int| 0 <= k < l < r.nodes[id].children.len() implies (
    #[trigger] r.nodes[id].children[k]) < (#[trigger] r.nodes[id].children[l]) by {
        assert(r.nodes[id].children[k] == t.nodes[id].children[k]);
        assert(r.nodes[id].children[l] == t.nodes[id].children[l]);
    }
}

/// The innermost open node has no child on the open path.
pub proof fn lemma_top_children_off_path(t: TreeView)
    requires
        t.wf(),
    ensures
        t.has(t.top() as int),
        t.open.contains(t.top()),
        forall|k: int| 0 <= k < t.nodes[t.top() as int].children.len() ==> !t.open.contains(
            #[trigger] t.nodes[t.top() as int].children[k]),
{
    let top = t.top() as int;
    assert(t.open[t.open.len() - 1] == t.top());
    let cs = t.nodes[top].children;
    assert forall|k: int| 0 <= k < cs.len() implies !t.open.contains(#[trigger] cs[k]) by {
        if t.open.contains(cs[k]) {
            lemma_child_on_path(t, top, k);
        }
    }
}

/// The shape of the tree after a childless node was appended.
pub proof fn lemma_with_leaf_shape(t: TreeView, data: DataView, len: int, opens: bool)
    requires
        t.wf(),
        0 <= len,
        t.written + len <= usize::MAX,
        t.nodes.len() < usize::MAX,
    ensures
        ({
            let r = if opens { t.with_element(data, len) } else { t.with_leaf(data, len) };
            let n = t.nodes.len() as int;
            let top = t.top() as int;
            &&& moved(t, r, len, t.open.len() as int, -1)
            &&& r.nodes.len() == n + 1
            &&& r.written == t.written + len
            &&& r.open == if opens { t.open.push(n as usize) } else { t.open }
            &&& r.nodes[top].children == t.nodes[top].children.push(n as usize)
            &&& r.nodes[n].data == data
            &&& r.nodes[n].parent == Some(t.top())
            &&& r.nodes[n].children == Seq::<usize>::empty()
            &&& r.nodes[n].start == t.insertion_point()
            &&& r.nodes[n].end == t.insertion_point() + len
            &&& !t.open.contains(n as usize)
            &&& 0 <= t.insertion_point() <= t.nodes[top].end
        }),
{
    let n = t.nodes.len() as int;
    let top = t.top() as int;
    let q = t.insertion_point();
    let node = NodeView {
        data,
        parent: Some(t.top()),
        children: Seq::<usize>::empty(),
        start: q as usize,
        end: (q + len) as usize,
    };
    let parent = NodeView { children: t.nodes[top].children.push(n as usize), ..t.nodes[top] };
    let t1 = TreeView { nodes: t.nodes.update(top, parent).push(node), ..t };
    lemma_resized(t1, len, (t.written + len) as usize);
    lemma_top_children_off_path(t);
    assert(t.node_wf(top));
    lemma_nested_tail(t, top);
    assert(t.open.take(t.open.len() as int) =~= t.open);
    assert(!t.open.contains(n as usize)) by {
        if t.open.contains(n as usize) {
            let m = choose|m: int| 0 <= m < t.open.len() && t.open[m] == n as usize;
            assert(t.open[m] < t.nodes.len());
        }
    }
}

/// The tail of a node fits in its range.
pub proof fn lemma_nested_tail(t: TreeView, id: int)
    requires
        t.wf(),
        t.has(id),
    ensures
        t.nodes[id].start + t.nodes[id].data.head().len() + t.nodes[id].data.tail().len() <= t.nodes[id].end,
{
    assert(t.node_wf(id));
    if t.nodes[id].children.len() > 0 {
        crate::ranges::lemma_child_nested(t, id, 0);
    }
}

/// The open path after a childless node was appended.
pub proof fn lemma_with_leaf_path(t: TreeView, r: TreeView, data: DataView, len: int, opens: bool)
    requires
        t.wf(),
        moved(t, r, len, t.open.len() as int, -1),
        r.nodes.len() == t.nodes.len() + 1,
        r.open == if opens { t.open.push(t.nodes.len() as usize) } else { t.open },
        r.nodes[t.top() as int].children == t.nodes[t.top() as int].children.push(t.nodes.len() as usize),
        r.nodes[t.nodes.len() as int].data == data,
        r.nodes[t.nodes.len() as int].parent == Some(t.top()),
        opens == data.is_open_element(),
    ensures
        r.path_wf(),
{
    let top = t.top() as int;
    lemma_top_children_off_path(t);
    assert forall|k: int, l: int| 0 <= k && l == k + 1 && l < r.open.len() implies {
        let id = #[trigger] r.open[l];
        let p = #[trigger] r.open[k];
        &&& r.nodes[id as int].data.is_open_element()
        &&& r.nodes[id as int].parent == Some(p)
        &&& r.nodes[p as int].children.len() > 0
        &&& r.nodes[p as int].children.last() == id
    } by {
        if l < t.open.len() {
            let id = t.open[l];
            let p = t.open[k];
            assert(t.nodes[id as int].parent == Some(p));
            assert(t.open[k] < t.open[l]);
            assert(t.open[l] < t.nodes.len());
            if p as int == top {
                if l < t.open.len() - 1 {
                    assert(t.open[l] < t.open[t.open.len() - 1]);
                }
            }
        } else {
            assert(t.open[k] == t.top());
        }
    }
    assert forall|k: int, l: int| 0 <= k < l < r.open.len() implies (#[trigger] r.open[k]) < (
    #[trigger] r.open[l]) by {
        if l == t.open.len() {
            assert(t.open[k] < t.nodes.len());
        }
    }
    assert forall|k: int| 0 <= k < r.open.len() implies (#[trigger] r.open[k]) < r.nodes.len() by {
        if k < t.open.len() {
            assert(t.open[k] < t.nodes.len());
        }
    }
}

/// Tiling of the node that received the new child.
pub proof fn lemma_with_leaf_top_tiled(t: TreeView, r: TreeView, len: int)
    requires
        t.wf(),
        0 <= len,
        t.written + len <= usize::MAX,
        moved(t, r, len, t.open.len() as int, -1),
        r.nodes.len() == t.nodes.len() + 1,
        r.nodes[t.top() as int].children == t.nodes[t.top() as int].children.push(t.nodes.len() as usize),
        r.nodes[t.nodes.len() as int].start == t.insertion_point(),
        r.nodes[t.nodes.len() as int].end == t.insertion_point() + len,
        r.nodes[t.nodes.len() as int].parent == Some(t.top()),
    ensures
        r.tiled(t.top() as int),
        r.linked(t.top() as int),
{
    let top = t.top() as int;
    let n = t.nodes.len() as int;
    lemma_top_children_off_path(t);
    assert(t.node_wf(top));
    assert(t.open.take(t.open.len() as int) =~= t.open);
    let cs = t.nodes[top].children;
    let rs = r.nodes[top].children;
    assert(rs.len() == cs.len() + 1);
    assert(rs[cs.len() as int] == n as usize);
    assert forall|k: int| 0 <= k < cs.len() implies rs[k] == cs[k] && top < (#[trigger] cs[k]) < n && r.nodes[cs[k] as int].end == t.nodes[cs[k] as int].end && r.nodes[cs[k] as int].start == t.nodes[cs[k] as int].start by {
        assert(!t.open.contains(cs[k]));
    }
    assert forall|k: int, l: int| 0 <= k && l == k + 1 && l < rs.len() implies r.nodes[(#[trigger] rs[l]) as int].start
        == r.nodes[(#[trigger] rs[k]) as int].end by {
        assert(rs[k] == cs[k]);
        assert(top < cs[k] < n);
        if l < cs.len() {
            assert(rs[l] == cs[l]);
            assert(top < cs[l] < n);
            assert(t.nodes[cs[l] as int].start == t.nodes[cs[k] as int].end);
        }
    }
    if cs.len() > 0 {
        assert(rs[0] == cs[0]);
        assert(top < cs[0] < n);
    }
    // links
    match t.nodes[top].parent {
        Some(p) => {
            let k = t.child_index(p as int, top);
            assert(t.nodes[p as int].children[k] == top);
            assert(r.nodes[p as int].children[k] == top);
        },
        None => {},
    }
    assert forall|k: int| 0 <= k < rs.len() implies top < (#[trigger] rs[k]) < r.nodes.len() && r.nodes[rs[k] as int].parent
        == Some(top as usize) by {
        if k < cs.len() {
            assert(rs[k] == cs[k]);
            assert(top < cs[k] < n);
        }
    }
    assert forall|k: int, l: int| 0 <= k < l < rs.len() implies (#[trigger] rs[k]) < (#[trigger] rs[l]) by {
        assert(rs[k] == cs[k]);
        assert(top < cs[k] < n);
        if l < cs.len() {
            assert(rs[l] == cs[l]);
        }
    }
}

/// Appending a childless node under the innermost open node keeps the invariant.
pub proof fn lemma_with_leaf_wf(t: TreeView, data: DataView, len: int, opens: bool)
    requires
        t.wf(),
        t.nodes[t.top() as int].data.is_container(),
        !(data is Document),
        len == data.head().len() + data.tail().len(),
        t.written + len <= usize::MAX,
        t.nodes.len() < usize::MAX,
        data is Text ==> data->Text_raw == t.nodes[t.top() as int].data.holds_raw_text(),
        opens == data.is_open_element(),
    ensures
        !opens ==> t.with_leaf(data, len).wf(),
        opens ==> t.with_element(data, len).wf(),
{
    let n = t.nodes.len() as int;
    let top = t.top() as int;
    let r = if opens { t.with_element(data, len) } else { t.with_leaf(data, len) };
    lemma_with_leaf_shape(t, data, len, opens);
    lemma_with_leaf_path(t, r, data, len, opens);
    lemma_with_leaf_top_tiled(t, r, len);
    lemma_top_children_off_path(t);
    let depth = t.open.len() as int;
    assert(t.open.take(depth) =~= t.open);
    assert forall|i: int| 0 <= i < t.nodes.len() && t.open.take(depth).contains(i as usize) implies 0 <= (#[trigger] t.nodes[i]).end + len <= usize::MAX by {
        assert(t.node_wf(i));
    }
    assert forall|id: int| 0 <= id < r.nodes.len() implies #[trigger] r.node_wf(id) by {
        if id == n {
            assert(r.child_index(top, n) >= 0) by {
                let cs = r.nodes[top].children;
                assert(cs[cs.len() - 1] == n);
            }
            if opens {
                assert(r.open[r.open.len() - 1] == n as usize);
            }
            assert(t.node_wf(top));
            assert(r.nodes[n].children.len() == 0);
            assert(r.linked(n));
            assert(r.tiled(n));
        } else {
            assert(t.node_wf(id));
            if id != top {
                lemma_moved_linked(t, r, len, depth, -1, id);
                lemma_moved_tiled(t, r, len, depth, -1, id);
            }
            if r.nodes[id].data.is_open_element() {
                let m = choose|m: int| 0 <= m < t.open.len() && t.open[m] == id as usize;
                assert(r.open[m] == id as usize);
            }
            if r.nodes[id].data is Text {
                let p = t.nodes[id].parent.unwrap() as int;
                assert(r.nodes[p].data == t.nodes[p].data);
            }
        }
    }
}

/// Every node on the open path contains the innermost open node.
pub proof fn lemma_path_nested(t: TreeView, k: int)
    requires
        t.wf(),
        0 <= k < t.open.len(),
    ensures
        t.nodes[t.open[k] as int].start <= t.nodes[t.top() as int].start,
        t.nodes[t.top() as int].end <= t.nodes[t.open[k] as int].end,
    decreases t.open.len() - k,
{
    if k < t.open.len() - 1 {
        lemma_path_nested(t, k + 1);
        let c = t.open[k + 1];
        let p = t.open[k];
        assert(t.nodes[c as int].parent == Some(p));
        crate::ranges::lemma_nested(t, c as int);
    }
}

/// Closing the innermost open element keeps the invariant.
pub proof fn lemma_with_top_closed_wf(t: TreeView)
    requires
        t.wf(),
        t.open.len() >= 2,
    ensures
        t.with_top_closed().wf(),
        t.with_top_closed().serialization() == t.serialization(),
{
    let r = t.with_top_closed();
    let top = t.top() as int;
    let depth = t.open.len() - 1;
    lemma_top_children_off_path(t);
    assert(t.open[depth] == t.top());
    assert(t.open[depth - 1] < t.open[depth]);
    assert(top != 0) by {
        assert(t.open[0] < t.open[depth]);
    }
    assert forall|id: int| 0 <= id < r.nodes.len() implies #[trigger] r.node_wf(id) by {
        assert(t.node_wf(id));
        if r.nodes[id].data.is_open_element() {
            let m = choose|m: int| 0 <= m < t.open.len() && t.open[m] == id as usize;
            assert(m < depth);
            assert(r.open[m] == id as usize);
        }
        if r.nodes[id].data is Text {
            let p = t.nodes[id].parent.unwrap() as int;
            assert(r.nodes[p].data.holds_raw_text() == t.nodes[p].data.holds_raw_text());
        }
        assert(r.linked(id)) by {
            match t.nodes[id].parent {
                Some(p) => {
                    let k = t.child_index(p as int, id);
                    assert(r.nodes[p as int].children[k] == id);
                },
                None => {},
            }
        }
        assert(r.tiled(id)) by {
            let cs = t.nodes[id].children;
            assert forall|k: int| 0 <= k < cs.len() implies r.nodes[(#[trigger] cs[k]) as int].start == t.nodes[cs[k] as int].start && r.nodes[cs[k] as int].end == t.nodes[cs[k] as int].end by {}
            assert(r.nodes[id].data.head() == t.nodes[id].data.head());
            assert(r.nodes[id].data.tail() == t.nodes[id].data.tail());
        }
    }
    assert(r.path_wf()) by {
        assert forall|k: int, l: int| 0 <= k && l == k + 1 && l < r.open.len() implies {
            let id = #[trigger] r.open[l];
            let p = #[trigger] r.open[k];
            &&& r.nodes[id as int].data.is_open_element()
            &&& r.nodes[id as int].parent == Some(p)
            &&& r.nodes[p as int].children.len() > 0
            &&& r.nodes[p as int].children.last() == id
        } by {
            let id = t.open[l];
            let p = t.open[k];
            assert(t.nodes[id as int].parent == Some(p));
            assert(t.open[l] < t.open[depth]);
        }
        assert forall|k: int, l: int| 0 <= k < l < r.open.len() implies (#[trigger] r.open[k]) < (
        #[trigger] r.open[l]) by {
            assert(t.open[k] < t.open[l]);
        }
        assert forall|k: int| 0 <= k < r.open.len() implies (#[trigger] r.open[k]) < r.nodes.len() by {
            assert(t.open[k] < t.nodes.len());
        }
    }
    lemma_same_markup(t, r, 0);
}

/// Two trees whose nodes agree on head, tail and children have the same markup.
pub proof fn lemma_same_markup(t: TreeView, r: TreeView, id: int)
    requires
        t.nodes.len() == r.nodes.len(),
        forall|i: int|
            0 <= i < t.nodes.len() ==> (#[trigger] r.nodes[i]).data.head() == t.nodes[i].data.head()
                && r.nodes[i].data.tail() == t.nodes[i].data.tail() && r.nodes[i].children
                == t.nodes[i].children,
    ensures
        r.markup(id) == t.markup(id),
    decreases t.nodes.len() - id, 1int, 0int,
{
    if 0 <= id < t.nodes.len() {
        lemma_same_content(t, r, id, 0);
    }
}

/// As `lemma_same_markup`, for the children from position `from` on.
pub proof fn lemma_same_content(t: TreeView, r: TreeView, id: int, from: int)
    requires
        t.nodes.len() == r.nodes.len(),
        forall|i: int|
            0 <= i < t.nodes.len() ==> (#[trigger] r.nodes[i]).data.head() == t.nodes[i].data.head()
                && r.nodes[i].data.tail() == t.nodes[i].data.tail() && r.nodes[i].children
                == t.nodes[i].children,
        0 <= id < t.nodes.len(),
    ensures
        r.content(id, from) == t.content(id, from),
    decreases t.nodes.len() - id, 0int, t.nodes[id].children.len() - from,
{
    assert(r.nodes[id].children == t.nodes[id].children);
    if 0 <= from < t.nodes[id].children.len() {
        let c = t.nodes[id].children[from];
        if id < c < t.nodes.len() {
            lemma_same_markup(t, r, c as int);
            lemma_same_content(t, r, id, from + 1);
        }
    }
}

/// The open path of `r` is the first `depth` nodes of the open path of `t`.
proof fn lemma_prefix_path(t: TreeView, r: TreeView, depth: int)
    requires
        t.wf(),
        1 <= depth <= t.open.len(),
        r.open == t.open.take(depth),
        r.nodes.len() == t.nodes.len(),
        forall|k: int|
            0 <= k < depth ==> {
                let i = #[trigger] t.open[k] as int;
                &&& r.nodes[i].data == t.nodes[i].data
                &&& r.nodes[i].parent == t.nodes[i].parent
                &&& (k < depth - 1 ==> r.nodes[i].children == t.nodes[i].children)
            },
    ensures
        r.path_wf(),
{
    assert forall|k: int, l: int| 0 <= k && l == k + 1 && l < r.open.len() implies {
        let id = #[trigger] r.open[l];
        let p = #[trigger] r.open[k];
        &&& r.nodes[id as int].data.is_open_element()
        &&& r.nodes[id as int].parent == Some(p)
        &&& r.nodes[p as int].children.len() > 0
        &&& r.nodes[p as int].children.last() == id
    } by {
        let id = t.open[l];
        let p = t.open[k];
        assert(t.nodes[id as int].parent == Some(p));
    }
    assert forall|k: int, l: int| 0 <= k < l < r.open.len() implies (#[trigger] r.open[k]) < (
    #[trigger] r.open[l]) by {
        assert(t.open[k] < t.open[l]);
    }
    assert forall|k: int| 0 <= k < r.open.len() implies (#[trigger] r.open[k]) < r.nodes.len() by {
        assert(t.open[k] < t.nodes.len());
    }
}

/// Extending the trailing text node of the innermost open node keeps the invariant.
pub proof fn lemma_with_more_text_wf(t: TreeView, extra: Seq<u8>, len: int)
    requires
        t.wf(),
        t.ends_in_text(),
        0 <= len,
        t.written + len <= usize::MAX,
        ({
            let old = t.nodes[t.nodes[t.top() as int].children.last() as int].data;
            DataView::Text { text: old->Text_text + extra, raw: old->Text_raw }.head().len() == old.head().len() + len
        }),
    ensures
        t.with_more_text(extra, len).wf(),
{
    let r = t.with_more_text(extra, len);
    let top = t.top() as int;
    let depth = t.open.len() as int;
    lemma_top_children_off_path(t);
    assert(t.node_wf(top));
    let cs = t.nodes[top].children;
    let leaf = cs.last() as int;
    assert(cs[cs.len() - 1] == leaf);
    assert(top < leaf < t.nodes.len());
    assert(t.node_wf(leaf));
    assert(!t.open.contains(leaf as usize));
    let old = t.nodes[leaf];
    let node = NodeView {
        data: DataView::Text { text: old.data->Text_text + extra, raw: old.data->Text_raw },
        end: (old.end + len) as usize,
        ..old
    };
    let t1 = TreeView { nodes: t.nodes.update(leaf, node), ..t };
    lemma_resized(t1, len, (t.written + len) as usize);
    assert(t.open.take(depth) =~= t.open);
    assert(old.children.len() == 0);
    assert(moved(t, r, len, depth, leaf));
    assert forall|i: int| 0 <= i < t.nodes.len() && t.open.take(depth).contains(i as usize) implies 0 <= (
    #[trigger] t.nodes[i]).end + len <= usize::MAX by {
        assert(t.node_wf(i));
    }
    lemma_prefix_path(t, r, depth);
    assert forall|id: int| 0 <= id < r.nodes.len() implies #[trigger] r.node_wf(id) by {
        assert(t.node_wf(id));
        if r.nodes[id].data.is_open_element() {
            assert(id != leaf);
        }
        if r.nodes[id].data is Text {
            let p = t.nodes[id].parent.unwrap() as int;
            assert(r.nodes[p].data == t.nodes[p].data);
        }
        if id == top {
            assert(r.linked(id)) by {
                match t.nodes[id].parent {
                    Some(p) => {
                        let k = t.child_index(p as int, id);
                        assert(r.nodes[p as int].children[k] == id);
                    },
                    None => {},
                }
            }
            assert(r.tiled(id)) by {
                assert forall|k: int| 0 <= k < cs.len() implies top < (#[trigger] cs[k]) < t.nodes.len() && r.nodes[cs[k] as int].start == t.nodes[cs[k] as int].start && (k < cs.len() - 1 ==> r.nodes[cs[k] as int].end == t.nodes[cs[k] as int].end) by {
                    assert(!t.open.contains(cs[k]));
                    if k < cs.len() - 1 {
                        assert(cs[k] < cs[cs.len() - 1]);
                    }
                }
                assert forall|k: int, l: int| 0 <= k && l == k + 1 && l < cs.len() implies r.nodes[(
                #[trigger] cs[l]) as int].start == r.nodes[(#[trigger] cs[k]) as int].end by {
                    assert(t.nodes[cs[l] as int].start == t.nodes[cs[k] as int].end);
                }
            }
        } else if id == leaf {
            assert(r.linked(id)) by {
                let k = t.child_index(top, id);
                assert(r.nodes[top].children[k] == id);
            }
        } else {
            lemma_moved_linked(t, r, len, depth, leaf, id);
            lemma_moved_tiled(t, r, len, depth, leaf, id);
        }
    }
}

/// Taking the innermost open element out of the tree keeps the invariant.
pub proof fn lemma_with_top_removed_wf(t: TreeView)
    requires
        t.wf(),
        t.open.len() >= 2,
    ensures
        t.with_top_removed().wf(),
        !t.with_top_removed().in_document(t.top() as int),
{
    let r = t.with_top_removed();
    let top = t.top() as int;
    let depth = t.open.len() - 1;
    let p = t.nodes[top].parent.unwrap() as int;
    let len = t.nodes[top].end - t.nodes[top].start;
    lemma_top_children_off_path(t);
    assert(t.open[depth] == t.top());
    let pp = t.open[depth - 1];
    assert(t.nodes[top].parent == Some(pp));
    assert(p == pp);
    assert(pp < t.open[depth]);
    assert(t.node_wf(top));
    assert(t.node_wf(p));
    let node = NodeView { data: t.nodes[top].data.close(), parent: None, ..t.nodes[top] };
    let parent = NodeView { children: t.nodes[p].children.drop_last(), ..t.nodes[p] };
    let t1 = TreeView {
        nodes: t.nodes.update(top, node).update(p, parent),
        open: t.open.drop_last(),
        ..t
    };
    lemma_resized(t1, -len, t.written);
    assert(t.open.drop_last() =~= t.open.take(depth));
    assert(!t.open.take(depth).contains(top as usize)) by {
        lemma_on_prefix(t, depth, top as usize);
        if t.open.take(depth).contains(top as usize) {
            let m = choose|m: int| 0 <= m < depth && #[trigger] t.open[m] == top as usize;
            assert(t.open[m] < t.open[depth]);
        }
    }
    assert(moved(t, r, -len, depth, -1));
    assert forall|i: int| 0 <= i < t.nodes.len() && t.open.take(depth).contains(i as usize) implies 0 <= (
    #[trigger] t.nodes[i]).end - len <= usize::MAX && t.nodes[i].start <= t.nodes[i].end - len by {
        assert(t.node_wf(i));
        lemma_on_prefix(t, depth, i as usize);
        let m = choose|m: int| 0 <= m < depth && #[trigger] t.open[m] == i as usize;
        lemma_path_nested(t, m);
    }
    lemma_prefix_path(t, r, depth);
    let cs = t.nodes[p].children;
    assert(cs[cs.len() - 1] == top);
    assert forall|id: int| 0 <= id < r.nodes.len() implies #[trigger] r.node_wf(id) by {
        assert(t.node_wf(id));
        if r.nodes[id].data.is_open_element() {
            let m = choose|m: int| 0 <= m < t.open.len() && t.open[m] == id as usize;
            assert(m < depth);
            assert(r.open[m] == id as usize);
        }
        if r.nodes[id].data is Text {
            let q = t.nodes[id].parent.unwrap() as int;
            assert(r.nodes[q].data.holds_raw_text() == t.nodes[q].data.holds_raw_text());
        }
        if id == p {
            assert(r.linked(id)) by {
                match t.nodes[id].parent {
                    Some(g) => {
                        let k = t.child_index(g as int, id);
                        assert(r.nodes[g as int].children[k] == id);
                    },
                    None => {},
                }
                let rs = r.nodes[id].children;
                assert forall|k: int| 0 <= k < rs.len() implies id < (#[trigger] rs[k]) < r.nodes.len()
                    && r.nodes[rs[k] as int].parent == Some(id as usize) by {
                    assert(rs[k] == cs[k]);
                    assert(cs[k] < cs[cs.len() - 1]);
                }
                assert forall|k: int, l: int| 0 <= k < l < rs.len() implies (#[trigger] rs[k]) < (
                #[trigger] rs[l]) by {
                    assert(rs[k] == cs[k] && rs[l] == cs[l]);
                }
            }
            assert(r.tiled(id)) by {
                let rs = r.nodes[id].children;
                lemma_on_prefix(t, depth, p as usize);
                assert(t.open.take(depth).contains(p as usize));
                assert forall|k: int| 0 <= k < rs.len() implies rs[k] == cs[k] && p < (#[trigger] cs[k]) < t.nodes.len() && r.nodes[cs[k] as int].start == t.nodes[cs[k] as int].start && r.nodes[cs[k] as int].end == t.nodes[cs[k] as int].end by {
                    assert(cs[k] < cs[cs.len() - 1]);
                    lemma_on_prefix(t, depth, cs[k]);
                    if t.open.contains(cs[k]) {
                        lemma_child_on_path(t, p, k);
                    }
                }
                if rs.len() > 0 {
                    let a = cs[cs.len() - 2];
                    let b = cs[cs.len() - 1];
                    assert(t.nodes[b as int].start == t.nodes[a as int].end);
                    assert(rs[rs.len() - 1] == a);
                    assert(rs[0] == cs[0]);
                    assert forall|k: int, l: int| 0 <= k && l == k + 1 && l < rs.len() implies r.nodes[(
                    #[trigger] rs[l]) as int].start == r.nodes[(#[trigger] rs[k]) as int].end by {
                        assert(rs[k] == cs[k] && rs[l] == cs[l]);
                        assert(t.nodes[cs[l] as int].start == t.nodes[cs[k] as int].end);
                    }
                } else {
                    assert(cs.len() == 1);
                    assert(cs[0] == top);
                }
            }
        } else if id == top {
            lemma_moved_tiled(t, r, -len, depth, -1, id);
            assert(r.linked(id));
        } else {
            lemma_moved_linked(t, r, -len, depth, -1, id);
            lemma_moved_tiled(t, r, -len, depth, -1, id);
        }
    }
    assert(top != 0) by {
        assert(t.open[0] < t.open[depth]);
    }
}

/// Appending a node moves no start and no end of a node that is not open.
pub proof fn lemma_with_leaf_keeps_ranges(t: TreeView, data: DataView, len: int)
    requires
        t.wf(),
    ensures
        t.ranges_kept(t.with_leaf(data, len), -1),
        t.ranges_kept(t.with_element(data, len), -1),
{
    let n = t.nodes.len() as int;
    let top = t.top() as int;
    let q = t.insertion_point();
    let node = NodeView {
        data,
        parent: Some(t.top()),
        children: Seq::<usize>::empty(),
        start: q as usize,
        end: (q + len) as usize,
    };
    let parent = NodeView { children: t.nodes[top].children.push(n as usize), ..t.nodes[top] };
    let t1 = TreeView { nodes: t.nodes.update(top, parent).push(node), ..t };
    lemma_resized(t1, len, (t.written + len) as usize);
    assert(t.open[t.open.len() - 1] == t.top());
    let r = t.with_element(data, len);
    assert forall|id: int| 0 <= id < t.nodes.len() && #[trigger] r.open.contains(id as usize) implies t.open.contains(
        id as usize,
    ) by {
        let m = choose|m: int| 0 <= m < r.open.len() && r.open[m] == id as usize;
        assert(m < t.open.len());
        assert(t.open[m] == id as usize);
    }
}

/// Extending the trailing text moves no start, and no end of a node that is
/// not open, but for the end of the text itself.
pub proof fn lemma_with_more_text_keeps_ranges(t: TreeView, extra: Seq<u8>, len: int)
    requires
        t.wf(),
        t.ends_in_text(),
    ensures
        t.ranges_kept(
            t.with_more_text(extra, len),
            t.nodes[t.top() as int].children.last() as int,
        ),
{
    let top = t.top() as int;
    assert(t.open[t.open.len() - 1] == t.top());
    assert(t.node_wf(top));
    let last = t.nodes[top].children.last() as int;
    assert(t.nodes[top].children[t.nodes[top].children.len() - 1] == last);
    let old = t.nodes[last];
    let node = NodeView {
        data: DataView::Text { text: old.data->Text_text + extra, raw: old.data->Text_raw },
        end: (old.end + len) as usize,
        ..old
    };
    let t1 = TreeView { nodes: t.nodes.update(last, node), ..t };
    lemma_resized(t1, len, (t.written + len) as usize);
}

/// Closing or removing the innermost open element moves no start and no
/// end of a node that was not open.
pub proof fn lemma_closing_keeps_ranges(t: TreeView)
    requires
        t.wf(),
        t.open.len() >= 2,
    ensures
        t.ranges_kept(t.with_top_closed(), -1),
        t.ranges_kept(t.with_top_removed(), -1),
{
    let top = t.top() as int;
    let depth = t.open.len() - 1;
    assert(t.open[depth] == t.top());
    let pp = t.open[depth - 1];
    assert(t.nodes[top].parent == Some(pp));
    let p = pp as int;
    let len = t.nodes[top].end - t.nodes[top].start;
    let node = NodeView { data: t.nodes[top].data.close(), parent: None, ..t.nodes[top] };
    let parent = NodeView { children: t.nodes[p].children.drop_last(), ..t.nodes[p] };
    let t1 = TreeView {
        nodes: t.nodes.update(top, node).update(p, parent),
        open: t.open.drop_last(),
        ..t
    };
    lemma_resized(t1, -len, t.written);
    let r = t.with_top_removed();
    assert forall|id: int| 0 <= id < t.nodes.len() && #[trigger] t1.open.contains(id as usize) implies t.open.contains(
        id as usize,
    ) by {
        let m = choose|m: int| 0 <= m < t1.open.len() && t1.open[m] == id as usize;
        assert(t.open[m] == id as usize);
    }
    assert forall|id: int|
        0 <= id < t.nodes.len() && !t.open.contains(id as usize) implies (#[trigger] r.nodes[id]).end
        == t.nodes[id].end by {
        if t1.open.contains(id as usize) {
            let m = choose|m: int| 0 <= m < t1.open.len() && t1.open[m] == id as usize;
            assert(t.open[m] == id as usize);
        }
    }
}

/// What holds from one tree to the next, and from that to a third, holds
/// from the first to the third.
pub proof fn lemma_ranges_kept_on(a: TreeView, b: TreeView, c: TreeView, except: int)
    requires
        a.ranges_kept(b, except),
        b.ranges_kept(c, -1),
    ensures
        a.ranges_kept(c, except),
{
    assert forall|id: int| 0 <= id < a.nodes.len() implies (#[trigger] c.nodes[id]).start == a.nodes[id].start by {
        assert(b.nodes[id].start == a.nodes[id].start);
    }
    assert forall|id: int|
        0 <= id < a.nodes.len() && !a.open.contains(id as usize) && id != except implies (#[trigger] c.nodes[id]).end
        == a.nodes[id].end by {
        assert(b.nodes[id].end == a.nodes[id].end);
        if b.open.contains(id as usize) {
            assert(a.open.contains(id as usize));
        }
    }
    assert forall|id: int| 0 <= id < a.nodes.len() && #[trigger] c.open.contains(id as usize) implies a.open.contains(
        id as usize,
    ) by {
        assert(b.open.contains(id as usize));
    }
}

/// As `lemma_ranges_kept_on`, where the exception is made in the second step.
pub proof fn lemma_ranges_kept_then(a: TreeView, b: TreeView, c: TreeView, except: int)
    requires
        a.ranges_kept(b, -1),
        b.ranges_kept(c, except),
    ensures
        a.ranges_kept(c, except),
{
    assert forall|id: int| 0 <= id < a.nodes.len() implies (#[trigger] c.nodes[id]).start == a.nodes[id].start by {
        assert(b.nodes[id].start == a.nodes[id].start);
    }
    assert forall|id: int|
        0 <= id < a.nodes.len() && !a.open.contains(id as usize) && id != except implies (#[trigger] c.nodes[id]).end
        == a.nodes[id].end by {
        assert(b.nodes[id].end == a.nodes[id].end);
        if b.open.contains(id as usize) {
            assert(a.open.contains(id as usize));
        }
    }
    assert forall|id: int| 0 <= id < a.nodes.len() && #[trigger] c.open.contains(id as usize) implies a.open.contains(
        id as usize,
    ) by {
        assert(b.open.contains(id as usize));
    }
}

} // verus!
