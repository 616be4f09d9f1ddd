//! The mathematical model of the node tree and of its byte ranges.
//!
//! A tree is an arena: node `0` is the document, every other node stands
//! after its parent. Each node carries the half-open range `[start, end)` that
//! its markup occupies in the serialized document. The nodes that can still
//! receive children form a stack, the open path, which runs from the document
//! down through last children.

use vstd::prelude::*;
use crate::attributes::AttrSeq;
use crate::markup::{
    close_tag, comment_markup, doctype_markup, is_raw_text, is_void, open_tag, pi_markup,
    text_markup,
};

verus! {

/// What a node is, as mathematical data.
pub enum DataView {
    Document,
    Doctype { name: Seq<u8> },
    Text { text: Seq<u8>, raw: bool },
    Comment { text: Seq<u8> },
    Instruction { target: Seq<u8>, data: Seq<u8> },
    Element { name: Seq<u8>, html: bool, attrs: AttrSeq, closed: bool },
}

/// A node of the arena.
pub struct NodeView {
    pub data: DataView,
    pub parent: Option<usize>,
    pub children: Seq<usize>,
    pub start: usize,
    pub end: usize,
}

/// The whole tree.
pub struct TreeView {
    pub nodes: Seq<NodeView>,
    /// The open path: the document, then each open element below its parent.
    pub open: Seq<usize>,
    /// Bytes of markup ever added; no range ends beyond it.
    pub written: usize,
}

impl DataView {
    /// Whether the node can have children.
    pub open spec fn is_container(self) -> bool {
        match self {
            DataView::Document => true,
            DataView::Element { name, html, .. } => !is_void(name, html),
            _ => false,
        }
    }

    /// Whether text placed directly inside this node is written literally.
    pub open spec fn holds_raw_text(self) -> bool {
        match self {
            DataView::Element { name, html, .. } => is_raw_text(name, html),
            _ => false,
        }
    }

    /// Whether this is an element that has not been closed.
    pub open spec fn is_open_element(self) -> bool {
        match self {
            DataView::Element { closed, .. } => !closed,
            _ => false,
        }
    }

    /// The markup written before the node's children.
    pub open spec fn head(self) -> Seq<u8> {
        match self {
            DataView::Document => Seq::<u8>::empty(),
            DataView::Doctype { name } => doctype_markup(name),
            DataView::Text { text, raw } => text_markup(text, raw),
            DataView::Comment { text } => comment_markup(text),
            DataView::Instruction { target, data } => pi_markup(target, data),
            DataView::Element { name, attrs, .. } => open_tag(name, attrs),
        }
    }

    /// The markup written after the node's children.
    pub open spec fn tail(self) -> Seq<u8> {
        match self {
            DataView::Element { name, html, .. } => if is_void(name, html) {
                Seq::<u8>::empty()
            } else {
                close_tag(name)
            },
            _ => Seq::<u8>::empty(),
        }
    }

    /// The same node, closed.
    pub open spec fn close(self) -> DataView {
        match self {
            DataView::Element { name, html, attrs, closed } => DataView::Element {
                name,
                html,
                attrs,
                closed: true,
            },
            d => d,
        }
    }
}

impl TreeView {
    /// The tree that holds only the document.
    pub open spec fn empty() -> TreeView {
        TreeView {
            nodes: seq![
                NodeView {
                    data: DataView::Document,
                    parent: None,
                    children: Seq::<usize>::empty(),
                    start: 0,
                    end: 0,
                },
            ],
            open: seq![0usize],
            written: 0,
        }
    }

    /// Whether `id` is a node of the tree.
    pub open spec fn has(self, id: int) -> bool {
        0 <= id < self.nodes.len()
    }

    /// The innermost open node.
    pub open spec fn top(self) -> usize {
        self.open.last()
    }

    /// Where the next child of the innermost open node will start.
    pub open spec fn insertion_point(self) -> int {
        self.nodes[self.top() as int].end - self.nodes[self.top() as int].data.tail().len()
    }

    /// The children of `id` lie edge to edge between its head and its tail.
    pub open spec fn tiled(self, id: int) -> bool {
        let n = self.nodes[id];
        if n.children.len() == 0 {
            n.end - n.start == n.data.head().len() + n.data.tail().len()
        } else {
            &&& self.nodes[n.children[0] as int].start == n.start + n.data.head().len()
            &&& forall|k: int, l: int|
                0 <= k && l == k + 1 && l < n.children.len() ==> self.nodes[(#[trigger] n.children[l]) as int].start
                    == self.nodes[(#[trigger] n.children[k]) as int].end
            &&& self.nodes[n.children.last() as int].end + n.data.tail().len() == n.end
        }
    }

    /// A position of `id` among the children of `p`, or `-1`.
    pub open spec fn child_index(self, p: int, id: int) -> int {
        let cs = self.nodes[p].children;
        if exists|k: int| 0 <= k < cs.len() && #[trigger] cs[k] == id {
            choose|k: int| 0 <= k < cs.len() && #[trigger] cs[k] == id
        } else {
            -1
        }
    }

    /// The links of `id` are sound: children come later in the arena, in
    /// increasing order, and point back.
    pub open spec fn linked(self, id: int) -> bool {
        let n = self.nodes[id];
        &&& match n.parent {
            Some(p) => p < id && self.child_index(p as int, id) >= 0,
            None => true,
        }
        &&& forall|k: int|
            0 <= k < n.children.len() ==> id < (#[trigger] n.children[k]) < self.nodes.len()
                && self.nodes[n.children[k] as int].parent == Some(id as usize)
        &&& forall|k: int, l: int|
            0 <= k < l < n.children.len() ==> (#[trigger] n.children[k]) < (#[trigger] n.children[l])
    }

    /// Everything that must hold of node `id`.
    pub open spec fn node_wf(self, id: int) -> bool {
        let n = self.nodes[id];
        &&& n.start <= n.end <= self.written
        &&& (n.data is Document <==> id == 0)
        &&& (n.children.len() > 0 ==> n.data.is_container())
        &&& (n.data is Text ==> n.parent is Some && n.data->Text_raw
            == self.nodes[n.parent.unwrap() as int].data.holds_raw_text())
        &&& (n.data.is_open_element() ==> self.open.contains(id as usize))
        &&& self.linked(id)
        &&& self.tiled(id)
    }

    /// The open path is a chain of last children that starts at the document.
    pub open spec fn path_wf(self) -> bool {
        &&& self.open.len() >= 1
        &&& self.open[0] == 0
        &&& forall|k: int| 0 <= k < self.open.len() ==> (#[trigger] self.open[k]) < self.nodes.len()
        &&& forall|k: int, l: int|
            0 <= k && l == k + 1 && l < self.open.len() ==> {
                let id = #[trigger] self.open[l];
                let p = #[trigger] self.open[k];
                &&& self.nodes[id as int].data.is_open_element()
                &&& self.nodes[id as int].parent == Some(p)
                &&& self.nodes[p as int].children.len() > 0
                &&& self.nodes[p as int].children.last() == id
            }
        &&& forall|k: int, l: int|
            0 <= k < l < self.open.len() ==> (#[trigger] self.open[k]) < (#[trigger] self.open[l])
    }

    /// The invariant of the tree.
    pub open spec fn wf(self) -> bool {
        &&& 1 <= self.nodes.len() <= usize::MAX
        &&& self.nodes[0].parent is None
        &&& self.nodes[0].start == 0
        &&& self.path_wf()
        &&& forall|id: int| 0 <= id < self.nodes.len() ==> #[trigger] self.node_wf(id)
    }

    /// Whether `id` hangs from the document (it, or an ancestor, has not been removed).
    pub open spec fn in_document(self, id: int) -> bool
        decreases id,
    {
        if id <= 0 {
            id == 0
        } else if id >= self.nodes.len() {
            false
        } else {
            match self.nodes[id].parent {
                Some(p) => p < id && self.in_document(p as int),
                None => false,
            }
        }
    }

    /// The markup of node `id`: its head, its children in order, its tail.
    pub open spec fn markup(self, id: int) -> Seq<u8>
        decreases self.nodes.len() - id, 1int, 0int,
    {
        if 0 <= id < self.nodes.len() {
            self.nodes[id].data.head() + self.content(id, 0) + self.nodes[id].data.tail()
        } else {
            Seq::<u8>::empty()
        }
    }

    /// The markup of the children of `id` from position `from` on.
    pub open spec fn content(self, id: int, from: int) -> Seq<u8>
        decreases self.nodes.len() - id, 0int, self.nodes[id].children.len() - from,
    {
        if 0 <= id < self.nodes.len() && 0 <= from < self.nodes[id].children.len() {
            let c = self.nodes[id].children[from];
            if id < c < self.nodes.len() {
                self.markup(c as int) + self.content(id, from + 1)
            } else {
                Seq::<u8>::empty()
            }
        } else {
            Seq::<u8>::empty()
        }
    }

    /// Ranges are final once a node is no longer open: in `r`, every node of
    /// `self` starts where it started, every node of `self` that is not
    /// open, but for `except`, ends where it ended, and no node of `self`
    /// that is not open is open again.
    pub open spec fn ranges_kept(self, r: TreeView, except: int) -> bool {
        &&& r.nodes.len() >= self.nodes.len()
        &&& forall|id: int|
            0 <= id < self.nodes.len() && #[trigger] r.open.contains(id as usize) ==> self.open.contains(
                id as usize,
            )
        &&& forall|id: int|
            0 <= id < self.nodes.len() ==> (#[trigger] r.nodes[id]).start == self.nodes[id].start
        &&& forall|id: int|
            0 <= id < self.nodes.len() && !self.open.contains(id as usize) && id != except ==> (
            #[trigger] r.nodes[id]).end == self.nodes[id].end
    }

    /// The serialized document.
    pub open spec fn serialization(self) -> Seq<u8> {
        self.markup(0)
    }

    // ----- transitions -----

    /// Every node on the open path ends `delta` later; `written` becomes `written`.
    pub open spec fn resized(self, delta: int, written: usize) -> TreeView {
        TreeView {
            nodes: Seq::new(
                self.nodes.len(),
                |i: int|
                    if self.open.contains(i as usize) {
                        NodeView { end: (self.nodes[i].end + delta) as usize, ..self.nodes[i] }
                    } else {
                        self.nodes[i]
                    },
            ),
            open: self.open,
            written,
        }
    }

    /// As `resized`, for the first `depth` nodes of the open path only.
    pub open spec fn resized_to(self, delta: int, depth: int) -> TreeView {
        TreeView {
            nodes: Seq::new(
                self.nodes.len(),
                |i: int|
                    if self.open.take(depth).contains(i as usize) {
                        NodeView { end: (self.nodes[i].end + delta) as usize, ..self.nodes[i] }
                    } else {
                        self.nodes[i]
                    },
            ),
            ..self
        }
    }

    /// A new childless node with `data` and `len` bytes of markup becomes the
    /// last child of the innermost open node.
    pub open spec fn with_leaf(self, data: DataView, len: int) -> TreeView {
        let id = self.nodes.len() as usize;
        let top = self.top() as int;
        let q = self.insertion_point();
        let node = NodeView {
            data,
            parent: Some(self.top()),
            children: Seq::<usize>::empty(),
            start: q as usize,
            end: (q + len) as usize,
        };
        let parent = NodeView { children: self.nodes[top].children.push(id), ..self.nodes[top] };
        TreeView { nodes: self.nodes.update(top, parent).push(node), ..self }.resized(
            len,
            (self.written + len) as usize,
        )
    }

    /// As `with_leaf`, and the new node becomes the innermost open node.
    pub open spec fn with_element(self, data: DataView, len: int) -> TreeView {
        let t = self.with_leaf(data, len);
        TreeView { open: t.open.push(self.nodes.len() as usize), ..t }
    }

    /// Whether the innermost open node ends in a text node.
    pub open spec fn ends_in_text(self) -> bool {
        let cs = self.nodes[self.top() as int].children;
        cs.len() > 0 && self.nodes[cs.last() as int].data is Text
    }

    /// The trailing text node of the innermost open node takes `extra`, `len` bytes of markup.
    pub open spec fn with_more_text(self, extra: Seq<u8>, len: int) -> TreeView {
        let last = self.nodes[self.top() as int].children.last() as int;
        let old = self.nodes[last];
        let node = NodeView {
            data: DataView::Text { text: old.data->Text_text + extra, raw: old.data->Text_raw },
            end: (old.end + len) as usize,
            ..old
        };
        TreeView { nodes: self.nodes.update(last, node), ..self }.resized(
            len,
            (self.written + len) as usize,
        )
    }

    /// The innermost open element is closed and leaves the open path.
    pub open spec fn with_top_closed(self) -> TreeView {
        let top = self.top() as int;
        let node = NodeView { data: self.nodes[top].data.close(), ..self.nodes[top] };
        TreeView { nodes: self.nodes.update(top, node), open: self.open.drop_last(), ..self }
    }

    /// The innermost open element is closed and taken out of the tree; the
    /// nodes that stay open give up its bytes.
    pub open spec fn with_top_removed(self) -> TreeView {
        let top = self.top() as int;
        let p = self.nodes[top].parent.unwrap() as int;
        let len = self.nodes[top].end - self.nodes[top].start;
        let node = NodeView { data: self.nodes[top].data.close(), parent: None, ..self.nodes[top] };
        let parent = NodeView { children: self.nodes[p].children.drop_last(), ..self.nodes[p] };
        TreeView {
            nodes: self.nodes.update(top, node).update(p, parent),
            open: self.open.drop_last(),
            ..self
        }.resized(-len, self.written)
    }
}

} // verus!
