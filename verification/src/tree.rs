//! The node tree with its byte ranges.
//!
//! Nodes are appended under the innermost open node only, so every insertion
//! lands just before a run of end tags; the ranges of the open nodes are
//! prolonged by the bytes inserted and no other range moves.

use vstd::prelude::*;
use crate::attributes::Attributes;
use crate::dom::{DataView, NodeView, TreeView};
use crate::markup::{
    escape_into, escaped, escaped_len, lemma_escaped_grows, raw_text_element, void_element,
};
use crate::text::{push_bytes, push_str};
use crate::transitions::{
    lemma_closing_keeps_ranges, lemma_empty_wf, lemma_path_nested, lemma_top_children_off_path,
    lemma_with_leaf_keeps_ranges, lemma_with_leaf_wf, lemma_with_more_text_keeps_ranges,
    lemma_with_more_text_wf, lemma_with_top_closed_wf, lemma_with_top_removed_wf,
};

verus! {

/// What a node is.
#[derive(Clone, Debug, PartialEq, Eq)]
pub enum NodeData {
    Document,
    Doctype { name: Vec<u8>, public_id: Vec<u8>, system_id: Vec<u8> },
    Text { text: Vec<u8>, raw: bool },
    Comment { text: Vec<u8> },
    Instruction { target: Vec<u8>, data: Vec<u8> },
    Element { name: Vec<u8>, html: bool, attrs: Attributes, closed: bool },
}

impl View for NodeData {
    type V = DataView;

    open spec fn view(&self) -> DataView {
        match self {
            NodeData::Document => DataView::Document,
            NodeData::Doctype { name, .. } => DataView::Doctype { name: name@ },
            NodeData::Text { text, raw } => DataView::Text { text: text@, raw: *raw },
            NodeData::Comment { text } => DataView::Comment { text: text@ },
            NodeData::Instruction { target, data } => DataView::Instruction {
                target: target@,
                data: data@,
            },
            NodeData::Element { name, html, attrs, closed } => DataView::Element {
                name: name@,
                html: *html,
                attrs: attrs@,
                closed: *closed,
            },
        }
    }
}

/// A node of the arena.
pub struct Node {
    data: NodeData,
    parent: Option<usize>,
    children: Vec<usize>,
    start: usize,
    end: usize,
}

impl View for Node {
    type V = NodeView;

    closed spec fn view(&self) -> NodeView {
        NodeView {
            data: self.data@,
            parent: self.parent,
            children: self.children@,
            start: self.start,
            end: self.end,
        }
    }
}

/// Why a node could not be appended.
#[derive(Copy, Clone, Debug, PartialEq, Eq, Structural)]
pub enum TreeError {
    /// The parent is not the innermost open node.
    NotInnermost,
    /// The parent is a void element.
    NotAContainer,
    /// The serialized document would not fit in `usize`.
    TooLarge,
}

/// Whether, and why, the tree refuses a new child of `parent` with `len` bytes of markup.
pub open spec fn refusal(t: TreeView, parent: usize, len: int) -> Option<TreeError> {
    if parent != t.top() {
        Some(TreeError::NotInnermost)
    } else if !t.nodes[parent as int].data.is_container() {
        Some(TreeError::NotAContainer)
    } else if t.written + len > usize::MAX || t.nodes.len() >= usize::MAX {
        Some(TreeError::TooLarge)
    } else {
        None
    }
}

/// An element that has just been created: open, with these attributes.
pub open spec fn fresh_element(name: Seq<u8>, html: bool, attrs: Seq<(Seq<u8>, Seq<u8>)>) -> DataView {
    DataView::Element { name, html, attrs, closed: false }
}

/// Bytes of markup of a childless node.
pub open spec fn own_len(d: DataView) -> int {
    (d.head().len() + d.tail().len()) as int
}

/// Bytes by which the markup of a text node grows when `extra` is added to it.
pub open spec fn text_growth(old: DataView, extra: Seq<u8>) -> int {
    DataView::Text { text: old->Text_text + extra, raw: old->Text_raw }.head().len() - old.head().len()
}

/// The tree.
pub struct Tree {
    nodes: Vec<Node>,
    open: Vec<usize>,
    written: usize,
}

impl View for Tree {
    type V = TreeView;

    closed spec fn view(&self) -> TreeView {
        TreeView {
            nodes: Seq::new(self.nodes@.len(), |i: int| self.nodes@[i]@),
            open: self.open@,
            written: self.written,
        }
    }
}

impl NodeData {
    /// Bytes of markup of this node without children; `None` when they do not fit.
    pub fn own_len(&self) -> (r: Option<usize>)
        ensures
            match r {
                Some(n) => n == own_len(self@),
                None => own_len(self@) > usize::MAX,
            },
    {
        match self {
            NodeData::Document => Some(0),
            NodeData::Doctype { name, .. } => {
                if name.len() > usize::MAX - 11 {
                    None
                } else {
                    Some(name.len() + 11)
                }
            },
            NodeData::Text { text, raw } => {
                if *raw {
                    Some(text.len())
                } else {
                    escaped_len(text.as_slice(), false)
                }
            },
            NodeData::Comment { text } => {
                if text.len() > usize::MAX - 7 {
                    None
                } else {
                    Some(text.len() + 7)
                }
            },
            NodeData::Instruction { target, data } => {
                if target.len() > usize::MAX - 4 || data.len() > usize::MAX - 4 - target.len() {
                    None
                } else {
                    Some(target.len() + data.len() + 4)
                }
            },
            NodeData::Element { name, html, attrs, .. } => {
                let a: usize = match attrs.markup_len() {
                    Some(a) => a,
                    None => { return None; },
                };
                let n: usize = name.len();
                // `<`, the name, the attributes, `>`
                if n > usize::MAX - 2 || a > usize::MAX - 2 - n {
                    return None;
                }
                let head: usize = n + a + 2;
                if void_element(name.as_slice(), *html) {
                    Some(head)
                } else if n > usize::MAX - 3 || head > usize::MAX - 3 - n {
                    None
                } else {
                    // `</`, the name, `>`
                    Some(head + n + 3)
                }
            },
        }
    }

    /// Bytes of markup written after the children.
    pub fn tail_len(&self) -> (r: usize)
        requires
            self@.tail().len() <= usize::MAX,
        ensures
            r == self@.tail().len(),
    {
        match self {
            NodeData::Element { name, html, .. } => {
                if void_element(name.as_slice(), *html) {
                    0
                } else {
                    name.len() + 3
                }
            },
            _ => 0,
        }
    }

    /// Appends the markup written before the children to `out`.
    pub fn write_head(&self, out: &mut Vec<u8>)
        ensures
            final(out)@ == old(out)@ + self@.head(),
    {
        match self {
            NodeData::Document => {
                assert(out@ =~= old(out)@ + self@.head());
            },
            NodeData::Doctype { name, .. } => {
                out.push(0x3cu8); out.push(0x21u8); out.push(0x44u8); out.push(0x4fu8);
                out.push(0x43u8); out.push(0x54u8); out.push(0x59u8); out.push(0x50u8);
                out.push(0x45u8); out.push(0x20u8);
                push_bytes(out, name.as_slice());
                out.push(0x3eu8);
                assert(out@ =~= old(out)@ + self@.head());
            },
            NodeData::Text { text, raw } => {
                if *raw {
                    push_bytes(out, text.as_slice());
                } else {
                    escape_into(out, text.as_slice(), false);
                }
            },
            NodeData::Comment { text } => {
                out.push(0x3cu8); out.push(0x21u8); out.push(0x2du8); out.push(0x2du8);
                push_bytes(out, text.as_slice());
                out.push(0x2du8); out.push(0x2du8); out.push(0x3eu8);
                assert(out@ =~= old(out)@ + self@.head());
            },
            NodeData::Instruction { target, data } => {
                out.push(0x3cu8); out.push(0x3fu8);
                push_bytes(out, target.as_slice());
                out.push(0x20u8);
                push_bytes(out, data.as_slice());
                out.push(0x3eu8);
                assert(out@ =~= old(out)@ + self@.head());
            },
            NodeData::Element { name, attrs, .. } => {
                out.push(0x3cu8);
                push_bytes(out, name.as_slice());
                attrs.write_markup(out);
                out.push(0x3eu8);
                assert(out@ =~= old(out)@ + self@.head());
            },
        }
    }

    /// Appends the markup written after the children to `out`.
    pub fn write_tail(&self, out: &mut Vec<u8>)
        ensures
            final(out)@ == old(out)@ + self@.tail(),
    {
        match self {
            NodeData::Element { name, html, .. } => {
                if void_element(name.as_slice(), *html) {
                    assert(out@ =~= old(out)@ + self@.tail());
                } else {
                    out.push(0x3cu8); out.push(0x2fu8);
                    push_bytes(out, name.as_slice());
                    out.push(0x3eu8);
                    assert(out@ =~= old(out)@ + self@.tail());
                }
            },
            _ => {
                assert(out@ =~= old(out)@ + self@.tail());
            },
        }
    }
}

/// Membership in a prefix that grows by one.
proof fn lemma_take_step(s: Seq<usize>, k: int, j: usize)
    requires
        0 <= k < s.len(),
    ensures
        s.take(k + 1).contains(j) <==> (s.take(k).contains(j) || s[k] == j),
{
    let a = s.take(k);
    let b = s.take(k + 1);
    if b.contains(j) {
        let m = choose|m: int| 0 <= m < b.len() && b[m] == j;
        if m < k {
            assert(a[m] == j);
        }
    }
    if a.contains(j) {
        let m = choose|m: int| 0 <= m < a.len() && a[m] == j;
        assert(b[m] == j);
    }
    if s[k] == j {
        assert(b[k] == j);
    }
}

/// The tree that appending `text` under the innermost open node gives: the
/// trailing text node takes it, or a new text node does.
pub open spec fn with_text(t: TreeView, text: Seq<u8>) -> TreeView {
    if t.ends_in_text() {
        t.with_more_text(text, text_len(t, text))
    } else {
        t.with_leaf(new_text(t, text), text_len(t, text))
    }
}

/// A new text node under the innermost open node.
pub open spec fn new_text(t: TreeView, text: Seq<u8>) -> DataView {
    DataView::Text { text, raw: t.nodes[t.top() as int].data.holds_raw_text() }
}

/// Bytes of markup that appending `text` under the innermost open node adds.
pub open spec fn text_len(t: TreeView, text: Seq<u8>) -> int {
    if t.ends_in_text() {
        text_growth(t.nodes[t.nodes[t.top() as int].children.last() as int].data, text)
    } else {
        own_len(new_text(t, text))
    }
}

impl Tree {
    /// The invariant of the tree.
    pub open spec fn wf(&self) -> bool {
        self@.wf()
    }

    /// A tree that holds only the document.
    pub fn new() -> (r: Tree)
        ensures
            r@ == TreeView::empty(),
            r.wf(),
    {
        let mut nodes: Vec<Node> = Vec::new();
        nodes.push(
            Node { data: NodeData::Document, parent: None, children: Vec::new(), start: 0, end: 0 },
        );
        let mut open: Vec<usize> = Vec::new();
        open.push(0);
        let r = Tree { nodes, open, written: 0 };
        proof {
            lemma_empty_wf();
            assert(r@.nodes =~= TreeView::empty().nodes);
            assert(r@.open =~= TreeView::empty().open);
        }
        r
    }

    /// Number of nodes ever created, the document included.
    pub fn len(&self) -> (n: usize)
        ensures
            n == self@.nodes.len(),
    {
        self.nodes.len()
    }

    /// Number of open nodes, the document included.
    pub fn depth(&self) -> (n: usize)
        ensures
            n == self@.open.len(),
    {
        self.open.len()
    }

    /// The innermost open node.
    pub fn top(&self) -> (id: usize)
        requires
            self.wf(),
        ensures
            id == self@.top(),
            id < self@.nodes.len(),
    {
        let id = self.open[self.open.len() - 1];
        assert(self@.open[self@.open.len() - 1] < self@.nodes.len());
        id
    }

    /// The `k`-th node of the open path.
    pub fn open_at(&self, k: usize) -> (id: usize)
        requires
            k < self@.open.len(),
        ensures
            id == self@.open[k as int],
    {
        self.open[k]
    }

    /// The data of node `id`.
    pub fn data(&self, id: usize) -> (d: &NodeData)
        requires
            id < self@.nodes.len(),
        ensures
            d@ == self@.nodes[id as int].data,
    {
        &self.nodes[id].data
    }

    /// The parent of node `id`.
    pub fn parent(&self, id: usize) -> (p: Option<usize>)
        requires
            id < self@.nodes.len(),
        ensures
            p == self@.nodes[id as int].parent,
    {
        self.nodes[id].parent
    }

    /// The children of node `id`, in order.
    pub fn children(&self, id: usize) -> (c: &Vec<usize>)
        requires
            id < self@.nodes.len(),
        ensures
            c@ == self@.nodes[id as int].children,
    {
        &self.nodes[id].children
    }

    /// The last child of node `id`.
    pub fn last_child(&self, id: usize) -> (c: Option<usize>)
        requires
            id < self@.nodes.len(),
        ensures
            match c {
                Some(c) => self@.nodes[id as int].children.len() > 0 && c
                    == self@.nodes[id as int].children.last(),
                None => self@.nodes[id as int].children.len() == 0,
            },
    {
        let n = self.nodes[id].children.len();
        if n == 0 {
            None
        } else {
            Some(self.nodes[id].children[n - 1])
        }
    }

    /// Where the markup of node `id` starts.
    pub fn start(&self, id: usize) -> (r: usize)
        requires
            id < self@.nodes.len(),
        ensures
            r == self@.nodes[id as int].start,
    {
        self.nodes[id].start
    }

    /// Where the markup of node `id` ends.
    pub fn end(&self, id: usize) -> (r: usize)
        requires
            id < self@.nodes.len(),
        ensures
            r == self@.nodes[id as int].end,
    {
        self.nodes[id].end
    }

    /// Whether `id` is an element that has not been closed.
    pub fn is_open(&self, id: usize) -> (r: bool)
        ensures
            r == (id < self@.nodes.len() && self@.nodes[id as int].data.is_open_element()),
    {
        if id >= self.nodes.len() {
            return false;
        }
        match &self.nodes[id].data {
            NodeData::Element { closed, .. } => !*closed,
            _ => false,
        }
    }

    /// Moves the end of every open node by `len` bytes, later or earlier.
    fn prolong(&mut self, len: usize, grow: bool)
        requires
            forall|k: int| 0 <= k < old(self)@.open.len() ==> (#[trigger] old(self)@.open[k]) < old(self)@.nodes.len(),
            forall|k: int, l: int|
                0 <= k < l < old(self)@.open.len() ==> (#[trigger] old(self)@.open[k]) < (
                #[trigger] old(self)@.open[l]),
            forall|k: int|
                0 <= k < old(self)@.open.len() ==> if grow {
                    old(self)@.nodes[(#[trigger] old(self)@.open[k]) as int].end + len <= usize::MAX
                } else {
                    old(self)@.nodes[(#[trigger] old(self)@.open[k]) as int].end >= len
                },
        ensures
            final(self)@ == old(self)@.resized(if grow { len as int } else { -len }, old(self)@.written),
    {
        let ghost t = self@;
        let ghost delta: int = if grow { len as int } else { -len };
        let mut k: usize = 0;
        proof {
            assert(t.open.take(0) =~= Seq::<usize>::empty());
            assert(self@.nodes =~= t.resized_to(delta, 0).nodes);
        }
        while k < self.open.len()
            invariant
                k <= self.open.len(),
                self@ == t.resized_to(delta, k as int),
                delta == if grow { len as int } else { -len },
                forall|k: int| 0 <= k < t.open.len() ==> (#[trigger] t.open[k]) < t.nodes.len(),
                forall|k: int, l: int| 0 <= k < l < t.open.len() ==> (#[trigger] t.open[k]) < (#[trigger] t.open[l]),
                forall|k: int|
                    0 <= k < t.open.len() ==> if grow {
                        t.nodes[(#[trigger] t.open[k]) as int].end + len <= usize::MAX
                    } else {
                        t.nodes[(#[trigger] t.open[k]) as int].end >= len
                    },
            decreases self.open.len() - k,
        {
            let ghost before = self@;
            let ghost prev = t.resized_to(delta, k as int);
            assert(self@.open == t.open);
            assert(self@.nodes.len() == t.nodes.len());
            let i: usize = self.open[k];
            assert(i == t.open[k as int]);
            assert(i < self.nodes.len());
            proof {
                if t.open.take(k as int).contains(i) {
                    let m = choose|m: int| 0 <= m < k && t.open.take(k as int)[m] == i;
                    assert(t.open[m] < t.open[k as int]);
                }
                assert(prev.nodes[i as int] == t.nodes[i as int]);
                assert(before.nodes[i as int] == t.nodes[i as int]);
            }
            let e: usize = self.nodes[i].end;
            self.nodes[i].end = if grow { e + len } else { e - len };
            proof {
                let goal = t.resized_to(delta, k + 1);
                assert(self@.nodes.len() == goal.nodes.len());
                assert forall|j: int| 0 <= j < self@.nodes.len() implies self@.nodes[j] == goal.nodes[j] by {
                    lemma_take_step(t.open, k as int, j as usize);
                    if j != i {
                        assert(self@.nodes[j] == before.nodes[j]);
                        assert(before.nodes[j] == prev.nodes[j]);
                        assert(t.open.take(k + 1).contains(j as usize) == t.open.take(k as int).contains(j as usize));
                    } else {
                        assert(t.open.take(k + 1).contains(i));
                        assert(self@.nodes[j].end == t.nodes[j].end + delta);
                    }
                }
                assert(self@.nodes =~= goal.nodes);
            }
            k += 1;
        }
        proof {
            assert(t.open.take(t.open.len() as int) =~= t.open);
            assert(self@.nodes =~= t.resized(delta, t.written).nodes);
        }
    }

    /// Appends a childless node under the innermost open node.
    fn push_node(&mut self, data: NodeData, len: usize, opens: bool) -> (id: usize)
        requires
            old(self).wf(),
            refusal(old(self)@, old(self)@.top(), len as int) is None,
            len == own_len(data@),
            !(data@ is Document),
            data@ is Text ==> data@->Text_raw == old(self)@.nodes[old(self)@.top() as int].data.holds_raw_text(),
            opens == data@.is_open_element(),
        ensures
            id == old(self)@.nodes.len(),
            final(self)@ == if opens {
                old(self)@.with_element(data@, len as int)
            } else {
                old(self)@.with_leaf(data@, len as int)
            },
            final(self).wf(),
            final(self)@.nodes.len() == old(self)@.nodes.len() + 1,
            old(self)@.ranges_kept(final(self)@, -1),
    {
        proof {
            lemma_with_leaf_keeps_ranges(self@, data@, len as int);
        }
        let ghost t = self@;
        let ghost d = data@;
        proof {
            lemma_with_leaf_wf(t, d, len as int, opens);
            lemma_top_children_off_path(t);
            assert(t.node_wf(t.top() as int));
            crate::transitions::lemma_nested_tail(t, t.top() as int);
        }
        let id: usize = self.nodes.len();
        let top: usize = self.top();
        let tail: usize = self.nodes[top].data.tail_len();
        let q: usize = self.nodes[top].end - tail;
        self.nodes[top].children.push(id);
        self.nodes.push(Node { data, parent: Some(top), children: Vec::new(), start: q, end: q + len });
        let ghost node = NodeView {
            data: d,
            parent: Some(t.top()),
            children: Seq::<usize>::empty(),
            start: q,
            end: (q + len) as usize,
        };
        let ghost parent = NodeView {
            children: t.nodes[top as int].children.push(id),
            ..t.nodes[top as int]
        };
        let ghost t1 = TreeView { nodes: t.nodes.update(top as int, parent).push(node), ..t };
        proof {
            assert(self@.nodes =~= t1.nodes);
            assert(self@ == t1);
            assert forall|k: int| 0 <= k < t1.open.len() implies t1.nodes[(#[trigger] t1.open[k]) as int].end
                + len <= usize::MAX by {
                assert(t.open[k] < t.nodes.len());
                assert(t.node_wf(t.open[k] as int));
            }
        }
        self.prolong(len, true);
        self.written = self.written + len;
        if opens {
            self.open.push(id);
        }
        proof {
            let goal = if opens { t.with_element(d, len as int) } else { t.with_leaf(d, len as int) };
            assert(self@.nodes =~= goal.nodes);
            assert(self@.open =~= goal.open);
        }
        id
    }

    /// Appends a new element under `parent`, which must be the innermost open
    /// node. The element starts where the end tag of `parent` started, and
    /// every open node is prolonged by the element's markup. The element
    /// becomes the innermost open node.
    pub fn append_element(&mut self, parent: usize, name: Vec<u8>, html: bool, attrs: Attributes) -> (r:
        Result<usize, TreeError>)
        requires
            old(self).wf(),
        ensures
            final(self).wf(),
            r is Ok ==> final(self)@.nodes.len() == old(self)@.nodes.len() + 1,
            match r {
                Ok(id) => {
                    &&& refusal(old(self)@, parent, own_len(fresh_element(name@, html, attrs@))) is None
                    &&& id == old(self)@.nodes.len()
                    &&& final(self)@ == old(self)@.with_element(
                        fresh_element(name@, html, attrs@),
                        own_len(fresh_element(name@, html, attrs@)),
                    )
                },
                Err(e) => {
                    &&& refusal(old(self)@, parent, own_len(fresh_element(name@, html, attrs@))) == Some(e)
                    &&& final(self)@ == old(self)@
                },
            },
            old(self)@.ranges_kept(final(self)@, -1),
    {
        let data = NodeData::Element { name, html, attrs, closed: false };
        self.append_data(parent, data, true)
    }

    /// Appends a comment under `parent`, which must be the innermost open node.
    pub fn append_comment(&mut self, parent: usize, text: Vec<u8>) -> (r: Result<usize, TreeError>)
        requires
            old(self).wf(),
        ensures
            final(self).wf(),
            r is Ok ==> final(self)@.nodes.len() == old(self)@.nodes.len() + 1,
            match r {
                Ok(id) => {
                    &&& refusal(old(self)@, parent, own_len(DataView::Comment { text: text@ })) is None
                    &&& id == old(self)@.nodes.len()
                    &&& final(self)@ == old(self)@.with_leaf(
                        DataView::Comment { text: text@ },
                        own_len(DataView::Comment { text: text@ }),
                    )
                },
                Err(e) => {
                    &&& refusal(old(self)@, parent, own_len(DataView::Comment { text: text@ })) == Some(e)
                    &&& final(self)@ == old(self)@
                },
            },
            old(self)@.ranges_kept(final(self)@, -1),
    {
        self.append_data(parent, NodeData::Comment { text }, false)
    }

    /// Appends a document type under `parent`, which must be the innermost open node.
    pub fn append_doctype(
        &mut self,
        parent: usize,
        name: Vec<u8>,
        public_id: Vec<u8>,
        system_id: Vec<u8>,
    ) -> (r: Result<usize, TreeError>)
        requires
            old(self).wf(),
        ensures
            final(self).wf(),
            r is Ok ==> final(self)@.nodes.len() == old(self)@.nodes.len() + 1,
            match r {
                Ok(id) => {
                    &&& refusal(old(self)@, parent, own_len(DataView::Doctype { name: name@ })) is None
                    &&& id == old(self)@.nodes.len()
                    &&& final(self)@ == old(self)@.with_leaf(
                        DataView::Doctype { name: name@ },
                        own_len(DataView::Doctype { name: name@ }),
                    )
                },
                Err(e) => {
                    &&& refusal(old(self)@, parent, own_len(DataView::Doctype { name: name@ })) == Some(e)
                    &&& final(self)@ == old(self)@
                },
            },
            old(self)@.ranges_kept(final(self)@, -1),
    {
        self.append_data(parent, NodeData::Doctype { name, public_id, system_id }, false)
    }

    /// Appends a processing instruction under `parent`, which must be the innermost open node.
    pub fn append_instruction(&mut self, parent: usize, target: Vec<u8>, data: Vec<u8>) -> (r: Result<
        usize,
        TreeError,
    >)
        requires
            old(self).wf(),
        ensures
            final(self).wf(),
            r is Ok ==> final(self)@.nodes.len() == old(self)@.nodes.len() + 1,
            match r {
                Ok(id) => {
                    &&& refusal(
                        old(self)@,
                        parent,
                        own_len(DataView::Instruction { target: target@, data: data@ }),
                    ) is None
                    &&& id == old(self)@.nodes.len()
                    &&& final(self)@ == old(self)@.with_leaf(
                        DataView::Instruction { target: target@, data: data@ },
                        own_len(DataView::Instruction { target: target@, data: data@ }),
                    )
                },
                Err(e) => {
                    &&& refusal(
                        old(self)@,
                        parent,
                        own_len(DataView::Instruction { target: target@, data: data@ }),
                    ) == Some(e)
                    &&& final(self)@ == old(self)@
                },
            },
            old(self)@.ranges_kept(final(self)@, -1),
    {
        self.append_data(parent, NodeData::Instruction { target, data }, false)
    }

    /// Appends a childless node that is neither text nor the document.
    fn append_data(&mut self, parent: usize, data: NodeData, opens: bool) -> (r: Result<usize, TreeError>)
        requires
            old(self).wf(),
            !(data@ is Document),
            !(data@ is Text),
            opens == data@.is_open_element(),
        ensures
            final(self).wf(),
            match r {
                Ok(id) => {
                    &&& refusal(old(self)@, parent, own_len(data@)) is None
                    &&& id == old(self)@.nodes.len()
                    &&& final(self)@ == if opens {
                        old(self)@.with_element(data@, own_len(data@))
                    } else {
                        old(self)@.with_leaf(data@, own_len(data@))
                    }
                },
                Err(e) => {
                    &&& refusal(old(self)@, parent, own_len(data@)) == Some(e)
                    &&& final(self)@ == old(self)@
                },
            },
            r is Ok ==> final(self)@.nodes.len() == old(self)@.nodes.len() + 1,
            old(self)@.ranges_kept(final(self)@, -1),
    {
        let top = self.top();
        if parent != top {
            return Err(TreeError::NotInnermost);
        }
        if !self.is_container(top) {
            return Err(TreeError::NotAContainer);
        }
        let len: usize = match data.own_len() {
            Some(len) => len,
            None => { return Err(TreeError::TooLarge); },
        };
        if len > usize::MAX - self.written || self.nodes.len() >= usize::MAX {
            return Err(TreeError::TooLarge);
        }
        Ok(self.push_node(data, len, opens))
    }

    /// Whether node `id` can have children.
    pub fn is_container(&self, id: usize) -> (r: bool)
        requires
            id < self@.nodes.len(),
        ensures
            r == self@.nodes[id as int].data.is_container(),
    {
        match &self.nodes[id].data {
            NodeData::Document => true,
            NodeData::Element { name, html, .. } => !void_element(name.as_slice(), *html),
            _ => false,
        }
    }

    /// Whether text placed directly inside node `id` is written literally.
    pub fn holds_raw_text(&self, id: usize) -> (r: bool)
        requires
            id < self@.nodes.len(),
        ensures
            r == self@.nodes[id as int].data.holds_raw_text(),
    {
        match &self.nodes[id].data {
            NodeData::Element { name, html, .. } => raw_text_element(name.as_slice(), *html),
            _ => false,
        }
    }

    /// Closes the innermost open element: it leaves the open path and can
    /// take no more children. The document itself is never closed.
    pub fn close_top(&mut self) -> (r: Option<usize>)
        requires
            old(self).wf(),
        ensures
            final(self).wf(),
            match r {
                Some(id) => old(self)@.open.len() >= 2 && id == old(self)@.top() && final(self)@
                    == old(self)@.with_top_closed(),
                None => old(self)@.open.len() == 1 && final(self)@ == old(self)@,
            },
            old(self)@.ranges_kept(final(self)@, -1),
    {
        proof {
            if self@.open.len() >= 2 {
                lemma_closing_keeps_ranges(self@);
            }
        }
        if self.open.len() < 2 {
            return None;
        }
        let ghost t = self@;
        proof {
            lemma_with_top_closed_wf(t);
        }
        let top: usize = self.top();
        self.open.pop();
        match &mut self.nodes[top].data {
            NodeData::Element { closed, .. } => {
                *closed = true;
            },
            _ => {},
        }
        proof {
            assert(self@.nodes =~= t.with_top_closed().nodes);
            assert(self@.open =~= t.with_top_closed().open);
        }
        Some(top)
    }

    /// Closes the innermost open element and takes it out of the tree. The
    /// nodes that stay open give up its bytes, so that every range in the
    /// document still cuts out its node's markup.
    pub fn remove_top(&mut self) -> (r: Option<usize>)
        requires
            old(self).wf(),
        ensures
            final(self).wf(),
            match r {
                Some(id) => old(self)@.open.len() >= 2 && id == old(self)@.top() && final(self)@
                    == old(self)@.with_top_removed() && !final(self)@.in_document(id as int),
                None => old(self)@.open.len() == 1 && final(self)@ == old(self)@,
            },
            old(self)@.ranges_kept(final(self)@, -1),
    {
        proof {
            if self@.open.len() >= 2 {
                lemma_closing_keeps_ranges(self@);
            }
        }
        if self.open.len() < 2 {
            return None;
        }
        let ghost t = self@;
        let top: usize = self.top();
        let ghost depth = t.open.len() - 1;
        proof {
            lemma_with_top_removed_wf(t);
            assert(t.open[depth] == t.top());
            let pp = t.open[depth - 1];
            assert(t.nodes[top as int].parent == Some(pp));
            assert(t.node_wf(top as int));
            assert(t.node_wf(pp as int));
            assert(pp < t.open[depth]);
        }
        let p: usize = match self.nodes[top].parent {
            Some(p) => p,
            None => { return None; },
        };
        let len: usize = self.nodes[top].end - self.nodes[top].start;
        self.open.pop();
        self.nodes[top].parent = None;
        match &mut self.nodes[top].data {
            NodeData::Element { closed, .. } => {
                *closed = true;
            },
            _ => {},
        }
        self.nodes[p].children.pop();
        let ghost node = NodeView { data: t.nodes[top as int].data.close(), parent: None, ..t.nodes[top as int] };
        let ghost parent = NodeView { children: t.nodes[p as int].children.drop_last(), ..t.nodes[p as int] };
        let ghost t1 = TreeView {
            nodes: t.nodes.update(top as int, node).update(p as int, parent),
            open: t.open.drop_last(),
            ..t
        };
        proof {
            assert(self@.nodes =~= t1.nodes);
            assert(self@.open =~= t1.open);
            assert(self@ == t1);
            assert forall|k: int| 0 <= k < t1.open.len() implies t1.nodes[(#[trigger] t1.open[k]) as int].end
                >= len by {
                assert(t.open[k] < t.open[depth]);
                assert(t.open[k] < t.nodes.len());
                lemma_path_nested(t, k);
            }
            assert forall|k: int, l: int| 0 <= k < l < t1.open.len() implies (#[trigger] t1.open[k]) < (
            #[trigger] t1.open[l]) by {
                assert(t.open[k] < t.open[l]);
            }
            assert forall|k: int| 0 <= k < t1.open.len() implies (#[trigger] t1.open[k]) < t1.nodes.len() by {
                assert(t.open[k] < t.nodes.len());
            }
        }
        self.prolong(len, false);
        Some(top)
    }
}

impl Tree {
    /// Appends text under `parent`, which must be the innermost open node.
    /// Text that follows text is merged into the same node. The open nodes
    /// are prolonged by the serialized length of what was added: the literal
    /// bytes inside a raw-text element, the escaped bytes elsewhere.
    pub fn append_text(&mut self, parent: usize, text: &[u8]) -> (r: Result<usize, TreeError>)
        requires
            old(self).wf(),
        ensures
            final(self).wf(),
            r is Ok ==> final(self)@.nodes.len() == old(self)@.nodes.len() + if old(self)@.ends_in_text() {
                0int
            } else {
                1int
            },
            match r {
                Ok(id) => {
                    &&& refusal(old(self)@, parent, text_len(old(self)@, text@)) is None
                    &&& final(self)@ == with_text(old(self)@, text@)
                    &&& id == if old(self)@.ends_in_text() {
                        old(self)@.nodes[parent as int].children.last()
                    } else {
                        old(self)@.nodes.len() as usize
                    }
                },
                Err(e) => {
                    &&& refusal(old(self)@, parent, text_len(old(self)@, text@)) == Some(e)
                    &&& final(self)@ == old(self)@
                },
            },
            old(self)@.ranges_kept(
                final(self)@,
                if old(self)@.ends_in_text() && r is Ok {
                    old(self)@.nodes[parent as int].children.last() as int
                } else {
                    -1
                },
            ),
    {
        proof {
            lemma_with_leaf_keeps_ranges(self@, new_text(self@, text@), text_len(self@, text@));
            if self@.ends_in_text() {
                lemma_with_more_text_keeps_ranges(self@, text@, text_len(self@, text@));
            }
        }
        let ghost t = self@;
        let top = self.top();
        if parent != top {
            return Err(TreeError::NotInnermost);
        }
        if !self.is_container(top) {
            return Err(TreeError::NotAContainer);
        }
        proof {
            lemma_top_children_off_path(t);
            assert(t.node_wf(top as int));
        }
        let last: Option<usize> = match self.last_child(top) {
            Some(c) => {
                assert(t.nodes[top as int].children[t.nodes[top as int].children.len() - 1] == c);
                match &self.nodes[c].data {
                    NodeData::Text { .. } => Some(c),
                    _ => None,
                }
            },
            None => None,
        };
        match last {
            Some(c) => {
                assert(t.ends_in_text());
                assert(t.node_wf(c as int));
                let ghost old_data = t.nodes[c as int].data;
                let (combined, raw): (Vec<u8>, bool) = match &self.nodes[c].data {
                    NodeData::Text { text: old_text, raw } => {
                        let mut v = crate::text::copy_bytes(old_text.as_slice());
                        push_bytes(&mut v, text);
                        (v, *raw)
                    },
                    _ => (Vec::new(), false),
                };
                let old_len: usize = self.nodes[c].end - self.nodes[c].start;
                let data = NodeData::Text { text: combined, raw };
                proof {
                    assert(data@ == DataView::Text { text: old_data->Text_text + text@, raw: old_data->Text_raw });
                    if !raw {
                        lemma_escaped_grows(old_data->Text_text, text@, false);
                    }
                    assert(old_len == old_data.head().len());
                    assert(own_len(data@) == data@.head().len());
                }
                let new_len: usize = match data.own_len() {
                    Some(n) => n,
                    None => { return Err(TreeError::TooLarge); },
                };
                let len: usize = new_len - old_len;
                if len > usize::MAX - self.written || self.nodes.len() >= usize::MAX {
                    return Err(TreeError::TooLarge);
                }
                proof {
                    lemma_with_more_text_wf(t, text@, len as int);
                }
                let e: usize = self.nodes[c].end;
                self.nodes[c].data = data;
                self.nodes[c].end = e + len;
                let ghost node = NodeView {
                    data: DataView::Text { text: old_data->Text_text + text@, raw: old_data->Text_raw },
                    end: (t.nodes[c as int].end + len) as usize,
                    ..t.nodes[c as int]
                };
                let ghost t1 = TreeView { nodes: t.nodes.update(c as int, node), ..t };
                proof {
                    assert(self@.nodes =~= t1.nodes);
                    assert(self@ == t1);
                    assert(!t.open.contains(c));
                    assert forall|k: int| 0 <= k < t1.open.len() implies t1.nodes[(#[trigger] t1.open[k]) as int].end
                        + len <= usize::MAX by {
                        assert(t.open[k] < t.nodes.len());
                        assert(t.node_wf(t.open[k] as int));
                        assert(t.open.contains(t.open[k]));
                    }
                }
                self.prolong(len, true);
                self.written = self.written + len;
                proof {
                    assert(self@.nodes =~= with_text(t, text@).nodes);
                }
                Ok(c)
            },
            None => {
                assert(!t.ends_in_text());
                let raw = self.holds_raw_text(top);
                let data = NodeData::Text { text: crate::text::copy_bytes(text), raw };
                let len: usize = match data.own_len() {
                    Some(len) => len,
                    None => { return Err(TreeError::TooLarge); },
                };
                if len > usize::MAX - self.written || self.nodes.len() >= usize::MAX {
                    return Err(TreeError::TooLarge);
                }
                Ok(self.push_node(data, len, false))
            },
        }
    }

    /// Appends the markup of node `id` to `out`.
    pub fn write_markup(&self, id: usize, out: &mut Vec<u8>)
        requires
            self.wf(),
            id < self@.nodes.len(),
        ensures
            final(out)@ == old(out)@ + self@.markup(id as int),
        decreases self@.nodes.len() - id,
    {
        self.nodes[id].data.write_head(out);
        self.write_content(id, out);
        self.nodes[id].data.write_tail(out);
        assert(out@ =~= old(out)@ + self@.markup(id as int));
    }

    /// Appends the markup of the children of node `id` to `out`.
    pub fn write_content(&self, id: usize, out: &mut Vec<u8>)
        requires
            self.wf(),
            id < self@.nodes.len(),
        ensures
            final(out)@ == old(out)@ + self@.content(id as int, 0),
        decreases self@.nodes.len() - id, 0int,
    {
        let n: usize = self.nodes[id].children.len();
        let mut k: usize = 0;
        let ghost all = self@.content(id as int, 0);
        assert(out@ + all =~= old(out)@ + all);
        while k < n
            invariant
                self.wf(),
                id < self@.nodes.len(),
                n == self@.nodes[id as int].children.len(),
                k <= n,
                out@ + self@.content(id as int, k as int) == old(out)@ + all,
            decreases n - k,
        {
            let c: usize = self.nodes[id].children[k];
            proof {
                assert(self@.node_wf(id as int));
                assert(self@.nodes[id as int].children[k as int] == c);
                assert(id < c < self@.nodes.len());
            }
            let ghost before = out@;
            self.write_markup(c, out);
            proof {
                let rest = self@.content(id as int, k + 1);
                assert(self@.content(id as int, k as int) == self@.markup(c as int) + rest);
                assert(out@ + rest =~= before + (self@.markup(c as int) + rest));
            }
            k += 1;
        }
        assert(self@.content(id as int, n as int) =~= Seq::<u8>::empty());
        assert(out@ =~= old(out)@ + all);
    }

    /// Whether node `id` hangs from the document: neither it nor any of its
    /// ancestors has been removed.
    pub fn in_document(&self, id: usize) -> (r: bool)
        requires
            self.wf(),
        ensures
            r == self@.in_document(id as int),
    {
        if id >= self.nodes.len() {
            return false;
        }
        let mut cur: usize = id;
        while cur != 0
            invariant
                self.wf(),
                cur < self@.nodes.len(),
                self@.in_document(cur as int) == self@.in_document(id as int),
            decreases cur,
        {
            proof {
                assert(self@.node_wf(cur as int));
            }
            match self.nodes[cur].parent {
                Some(p) => {
                    cur = p;
                },
                None => {
                    return false;
                },
            }
        }
        true
    }

    /// The serialized document.
    pub fn serialize(&self) -> (out: Vec<u8>)
        requires
            self.wf(),
        ensures
            out@ == self@.serialization(),
    {
        let mut out: Vec<u8> = Vec::new();
        self.write_markup(0, &mut out);
        assert(out@ =~= self@.serialization());
        out
    }

    /// The markup of node `id` alone.
    pub fn serialize_node(&self, id: usize) -> (out: Vec<u8>)
        requires
            self.wf(),
            id < self@.nodes.len(),
        ensures
            out@ == self@.markup(id as int),
    {
        let mut out: Vec<u8> = Vec::new();
        self.write_markup(id, &mut out);
        assert(out@ =~= self@.markup(id as int));
        out
    }

    /// The markup of the children of node `id`.
    pub fn serialize_content(&self, id: usize) -> (out: Vec<u8>)
        requires
            self.wf(),
            id < self@.nodes.len(),
        ensures
            out@ == self@.content(id as int, 0),
    {
        let mut out: Vec<u8> = Vec::new();
        self.write_content(id, &mut out);
        assert(out@ =~= self@.content(id as int, 0));
        out
    }
}

} // verus!
