//! The extraction of one document.
//!
//! The parser receives the events of a markup parser: nodes are created,
//! appended and closed. It keeps the node tree with its byte ranges, runs the
//! rules on every element that is appended inside another, finishes the
//! semantic elements of every node that closes, and in the end hands out
//! everything it has found, or fails.

use vstd::prelude::*;
use crate::attributes::{lookup, with_value, AttrSeq, Attribute, Attributes};
use crate::close::closed_all;
use crate::dispatch::{applicable_rules, dispatched, opt_elements};
use crate::dom::{DataView, TreeView};
use crate::errors::{report, DiagnosticLevel};
use crate::getters::update;
use crate::keys::SHTMLKey;
use crate::open::{
    contents_in, elements_view, lemma_scopes_in, scopes_in, ElementView, OpenSHTMLElement, OpenTerm,
    OpenTermView, SHTMLElements,
};
use crate::resolve::ArchiveTable;
use crate::sections::DocumentRange;
use crate::state::{Extraction, ExtractionView, ExtractorState, StateView};
use crate::terms::{VarOrSym, VarOrSymView};
use crate::text::{bytes_of, copy_bytes, eq_str, lit, opt_bytes};
use crate::transitions::{lemma_nested_tail, lemma_ranges_kept_on, lemma_ranges_kept_then};
use crate::state::{Record, Resource, Triple, records_view, resources_view, triples_view, RecordView, ResourceView, TripleView};
use crate::errors::{Diagnostic, DiagnosticView, diagnostics_view};
use crate::tree::{fresh_element, own_len, refusal, text_len, with_text, NodeData, Tree, TreeError};
use crate::uris::{Uri, UriView};

verus! {

/// A style sheet that was hoisted out of the head of the document.
#[derive(Clone, Debug, PartialEq, Eq)]
pub enum CSS {
    Link(Vec<u8>),
    Inline(Vec<u8>),
}

/// A style sheet as mathematical data.
pub enum CssView {
    Link(Seq<u8>),
    Inline(Seq<u8>),
}

impl View for CSS {
    type V = CssView;

    open spec fn view(&self) -> CssView {
        match self {
            CSS::Link(href) => CssView::Link(href@),
            CSS::Inline(text) => CssView::Inline(text@),
        }
    }
}

/// The style sheets that a vector holds.
pub open spec fn css_view(v: Seq<CSS>) -> Seq<CssView> {
    Seq::new(v.len(), |i: int| v[i]@)
}

/// The pending elements that a vector holds, node by node.
pub open spec fn pending_view(v: Seq<SHTMLElements>) -> Seq<Seq<ElementView>> {
    Seq::new(v.len(), |i: int| v[i]@)
}

/// An element that has been created and not yet appended.
pub struct NewElement {
    name: Vec<u8>,
    html: bool,
    attrs: Attributes,
}

impl NewElement {
    /// The name of the element.
    pub closed spec fn name(&self) -> Seq<u8> {
        self.name@
    }

    /// Whether the element belongs to the HTML namespace.
    pub closed spec fn html(&self) -> bool {
        self.html
    }

    /// The attributes of the element.
    pub closed spec fn attrs(&self) -> AttrSeq {
        self.attrs@
    }

    /// The attributes have unique names.
    pub closed spec fn wf(&self) -> bool {
        self.attrs.wf()
    }
}

/// The attributes that remain of `given` when only the first of each name is kept.
pub open spec fn first_of_each(given: Seq<(Seq<u8>, Seq<u8>)>, k: int) -> AttrSeq
    decreases k,
{
    if k <= 0 {
        Seq::<(Seq<u8>, Seq<u8>)>::empty()
    } else {
        let before = first_of_each(given, k - 1);
        if lookup(before, given[k - 1].0) is None {
            before.push(given[k - 1])
        } else {
            before
        }
    }
}

/// The names and values that a vector of attributes holds.
pub open spec fn given_view(v: Seq<Attribute>) -> Seq<(Seq<u8>, Seq<u8>)> {
    Seq::new(v.len(), |i: int| (v[i].name@, v[i].value@))
}

/// Creates an element. Of attributes that share a name the first stands.
pub fn create_element(name: Vec<u8>, html: bool, attrs: Vec<Attribute>) -> (r: NewElement)
    ensures
        r.wf(),
        r.name() == name@,
        r.html() == html,
        r.attrs() == first_of_each(given_view(attrs@), attrs@.len() as int),
{
    let ghost given = given_view(attrs@);
    let mut set = Attributes::new();
    let mut k: usize = 0;
    while k < attrs.len()
        invariant
            k <= attrs.len(),
            set.wf(),
            given == given_view(attrs@),
            set@ == first_of_each(given, k as int),
        decreases attrs.len() - k,
    {
        assert(given[k as int] == (attrs@[k as int].name@, attrs@[k as int].value@));
        set.insert(copy_bytes(attrs[k].name.as_slice()), copy_bytes(attrs[k].value.as_slice()));
        k += 1;
    }
    NewElement { name, html, attrs: set }
}

/// What is appended to a node.
pub enum NodeOrText {
    AppendNode(NewElement),
    AppendText(Vec<u8>),
    AppendComment(Vec<u8>),
    AppendInstruction { target: Vec<u8>, data: Vec<u8> },
    AppendDoctype { name: Vec<u8>, public_id: Vec<u8>, system_id: Vec<u8> },
}

/// What is appended to a node, as mathematical data.
pub enum ChildView {
    Node { name: Seq<u8>, html: bool, attrs: AttrSeq },
    Text(Seq<u8>),
    Comment(Seq<u8>),
    Instruction { target: Seq<u8>, data: Seq<u8> },
    Doctype { name: Seq<u8> },
}

impl View for NodeOrText {
    type V = ChildView;

    closed spec fn view(&self) -> ChildView {
        match self {
            NodeOrText::AppendNode(e) => ChildView::Node { name: e.name@, html: e.html, attrs: e.attrs@ },
            NodeOrText::AppendText(t) => ChildView::Text(t@),
            NodeOrText::AppendComment(t) => ChildView::Comment(t@),
            NodeOrText::AppendInstruction { target, data } => ChildView::Instruction {
                target: target@,
                data: data@,
            },
            NodeOrText::AppendDoctype { name, .. } => ChildView::Doctype { name: name@ },
        }
    }
}

impl NodeOrText {
    /// An element child has attributes with unique names.
    pub closed spec fn wf(&self) -> bool {
        match self {
            NodeOrText::AppendNode(e) => e.wf(),
            _ => true,
        }
    }

    /// An element to append.
    pub fn node(e: NewElement) -> (r: NodeOrText)
        requires
            e.wf(),
        ensures
            r.wf(),
            r@ == (ChildView::Node { name: e.name(), html: e.html(), attrs: e.attrs() }),
    {
        NodeOrText::AppendNode(e)
    }

    /// Text to append.
    pub fn text(t: Vec<u8>) -> (r: NodeOrText)
        ensures
            r.wf(),
            r@ == ChildView::Text(t@),
    {
        NodeOrText::AppendText(t)
    }

    /// A comment to append.
    pub fn comment(t: Vec<u8>) -> (r: NodeOrText)
        ensures
            r.wf(),
            r@ == ChildView::Comment(t@),
    {
        NodeOrText::AppendComment(t)
    }

    /// A processing instruction to append.
    pub fn instruction(target: Vec<u8>, data: Vec<u8>) -> (r: NodeOrText)
        ensures
            r.wf(),
            r@ == (ChildView::Instruction { target: target@, data: data@ }),
    {
        NodeOrText::AppendInstruction { target, data }
    }

    /// A document type to append.
    pub fn doctype(name: Vec<u8>, public_id: Vec<u8>, system_id: Vec<u8>) -> (r: NodeOrText)
        ensures
            r.wf(),
            r@ == (ChildView::Doctype { name: name@ }),
    {
        NodeOrText::AppendDoctype { name, public_id, system_id }
    }
}

// ----- attribute rewriting -----

/// The symbol that the head of an open term refers to, if it refers to one.
pub open spec fn head_symbol(t: OpenTermView) -> Option<UriView> {
    match t {
        OpenTermView::Symref { uri, .. } => Some(uri),
        OpenTermView::OMA { head: VarOrSymView::S(uri), .. } => Some(uri),
        OpenTermView::Complex(VarOrSymView::S(uri)) => Some(uri),
        _ => None,
    }
}

/// The attributes after the identifier that `e` has resolved was written back.
pub open spec fn rewritten_one(e: ElementView, a: AttrSeq) -> AttrSeq {
    match e {
        ElementView::ImportModule(uri) => with_value(a, SHTMLKey::ImportModule.attr(), uri.text()),
        ElementView::UseModule(uri) => with_value(a, SHTMLKey::UseModule.attr(), uri.text()),
        ElementView::MathStructure { uri, .. } => with_value(
            a,
            SHTMLKey::MathStructure.attr(),
            uri.as_module().text(),
        ),
        ElementView::Morphism { uri, domain, .. } => {
            let a1 = with_value(a, SHTMLKey::MorphismDomain.attr(), domain.text());
            match uri {
                Some(u) => with_value(a1, SHTMLKey::Morphism.attr(), u.as_module().text()),
                None => a1,
            }
        },
        ElementView::Assign(uri) => with_value(a, SHTMLKey::Assign.attr(), uri.text()),
        ElementView::Symdecl { uri, .. } => with_value(a, SHTMLKey::Symdecl.attr(), uri.text()),
        ElementView::Notation { symbol: VarOrSymView::S(uri), .. } => with_value(
            a,
            SHTMLKey::Notation.attr(),
            uri.text(),
        ),
        ElementView::Definiendum(uri) => with_value(a, SHTMLKey::Definiendum.attr(), uri.text()),
        ElementView::Conclusion { uri, .. } => with_value(a, SHTMLKey::Conclusion.attr(), uri.text()),
        ElementView::Definiens { uri: Some(uri), .. } => with_value(
            a,
            SHTMLKey::Definiens.attr(),
            uri.text(),
        ),
        ElementView::Inputref { uri, .. } => with_value(a, SHTMLKey::InputRef.attr(), uri.text()),
        ElementView::OpenTerm { term, .. } => match head_symbol(term) {
            Some(uri) => with_value(a, SHTMLKey::Head.attr(), uri.text()),
            None => a,
        },
        _ => a,
    }
}

/// The attributes after the identifiers that the first `k` elements have
/// resolved were written back.
pub open spec fn rewritten(elems: Seq<ElementView>, a: AttrSeq, k: int) -> AttrSeq
    decreases k,
{
    if k <= 0 {
        a
    } else {
        rewritten_one(elems[k - 1], rewritten(elems, a, k - 1))
    }
}

/// Writes the identifier that `e` has resolved back into the attributes.
fn update_one(e: &OpenSHTMLElement, attrs: &mut Attributes)
    ensures
        final(attrs)@ == rewritten_one(e@, old(attrs)@),
        old(attrs).wf() ==> final(attrs).wf(),
{
    match e {
        OpenSHTMLElement::ImportModule(uri) => update(attrs, SHTMLKey::ImportModule, uri),
        OpenSHTMLElement::UseModule(uri) => update(attrs, SHTMLKey::UseModule, uri),
        OpenSHTMLElement::MathStructure { uri, .. } => {
            update(attrs, SHTMLKey::MathStructure, &uri.into_module());
        },
        OpenSHTMLElement::Morphism { uri, domain, .. } => {
            update(attrs, SHTMLKey::MorphismDomain, domain);
            match uri {
                Some(u) => {
                    update(attrs, SHTMLKey::Morphism, &u.into_module());
                },
                None => {},
            }
        },
        OpenSHTMLElement::Assign(uri) => update(attrs, SHTMLKey::Assign, uri),
        OpenSHTMLElement::Symdecl { uri, .. } => update(attrs, SHTMLKey::Symdecl, uri),
        OpenSHTMLElement::Notation { symbol: VarOrSym::S(uri), .. } => update(attrs, SHTMLKey::Notation, uri),
        OpenSHTMLElement::Definiendum(uri) => update(attrs, SHTMLKey::Definiendum, uri),
        OpenSHTMLElement::Conclusion { uri, .. } => update(attrs, SHTMLKey::Conclusion, uri),
        OpenSHTMLElement::Definiens { uri: Some(uri), .. } => update(attrs, SHTMLKey::Definiens, uri),
        OpenSHTMLElement::Inputref { uri, .. } => update(attrs, SHTMLKey::InputRef, uri),
        OpenSHTMLElement::OpenTerm { term, .. } => {
            match term {
                OpenTerm::Symref { uri, .. } => update(attrs, SHTMLKey::Head, uri),
                OpenTerm::OMA { head: VarOrSym::S(uri), .. } => update(attrs, SHTMLKey::Head, uri),
                OpenTerm::Complex(VarOrSym::S(uri)) => update(attrs, SHTMLKey::Head, uri),
                _ => {},
            }
        },
        _ => {},
    }
}

/// Writes the identifiers that the rules have resolved back into the
/// attributes of the element, so that the serialized document carries them
/// in full.
pub fn update_attributes(elements: &SHTMLElements, attrs: &mut Attributes)
    ensures
        final(attrs)@ == rewritten(elements@, old(attrs)@, elements@.len() as int),
        old(attrs).wf() ==> final(attrs).wf(),
{
    let mut i: usize = 0;
    while i < elements.elems.len()
        invariant
            i <= elements.elems.len(),
            elements.elems@.len() == elements@.len(),
            attrs@ == rewritten(elements@, old(attrs)@, i as int),
            old(attrs).wf() ==> attrs.wf(),
        decreases elements.elems.len() - i,
    {
        assert(elements@[i as int] == elements.elems@[i as int]@);
        update_one(&elements.elems[i], attrs);
        i += 1;
    }
}

// ----- the parser -----

/// The extraction of one document in progress.
pub struct HTMLParser {
    tree: Tree,
    state: ExtractorState,
    pending: Vec<SHTMLElements>,
    css: Vec<CSS>,
    body: (DocumentRange, usize),
    body_node: Option<usize>,
}

/// The parser as mathematical data.
pub struct ParserView {
    pub tree: TreeView,
    pub state: StateView,
    /// The pending semantic elements of every node.
    pub pending: Seq<Seq<ElementView>>,
    pub css: Seq<CssView>,
    /// The range of the body of the document and the length of its start tag.
    pub body: (DocumentRange, usize),
    /// The body of the document, once it has closed.
    pub body_node: Option<usize>,
}

impl View for HTMLParser {
    type V = ParserView;

    closed spec fn view(&self) -> ParserView {
        ParserView {
            tree: self.tree@,
            state: self.state@,
            pending: pending_view(self.pending@),
            css: css_view(self.css@),
            body: self.body,
            body_node: self.body_node,
        }
    }
}

/// Whether one of the elements marks the title of the document.
pub open spec fn has_doctitle(elems: Seq<ElementView>) -> bool {
    exists|i: int| 0 <= i < elems.len() && #[trigger] elems[i] is Doctitle
}

impl ParserView {
    /// The parser at the start of the extraction of `document`.
    pub open spec fn initial(document: UriView, archives: crate::resolve::ArchiveSeq) -> ParserView {
        ParserView {
            tree: TreeView::empty(),
            state: StateView::initial(document, archives),
            pending: seq![Seq::<ElementView>::empty()],
            css: Seq::<CssView>::empty(),
            body: (DocumentRange { start: 0, end: 0 }, 0),
            body_node: None,
        }
    }

    /// The invariant of the parser.
    pub open spec fn wf(self) -> bool {
        &&& self.tree.wf()
        &&& self.state.wf()
        &&& self.pending.len() == self.tree.nodes.len()
        &&& (self.body_node matches Some(b) ==> b < self.tree.nodes.len())
    }

    /// The range of node `id`.
    pub open spec fn range(self, id: int) -> DocumentRange {
        DocumentRange { start: self.tree.nodes[id].start, end: self.tree.nodes[id].end }
    }

    /// The name of node `id`, if it is an element.
    pub open spec fn element_name(self, id: int) -> Option<Seq<u8>> {
        match self.tree.nodes[id].data {
            DataView::Element { name, .. } => Some(name),
            _ => None,
        }
    }

    /// The style sheet that the innermost open node is, if it is one: a
    /// `link` with `rel="stylesheet"` and an `href`, or a `style`, directly
    /// inside `head`.
    pub open spec fn style_sheet(self) -> Option<CssView> {
        let t = self.tree.top() as int;
        match (self.tree.nodes[t].data, self.tree.nodes[t].parent) {
            (DataView::Element { name, attrs, .. }, Some(pp)) => if self.element_name(pp as int) == Some(
                lit("head"),
            ) {
                if name == lit("link") {
                    if lookup(attrs, lit("rel")) == Some(lit("stylesheet")) && lookup(
                        attrs,
                        lit("href"),
                    ) is Some {
                        Some(CssView::Link(lookup(attrs, lit("href")).unwrap()))
                    } else {
                        None
                    }
                } else if name == lit("style") {
                    Some(CssView::Inline(self.tree.content(t, 0)))
                } else {
                    None
                }
            } else {
                None
            },
            _ => None,
        }
    }

    /// The parser after the innermost open element closed.
    ///
    /// A style sheet is hoisted: it joins the list of style sheets and leaves
    /// the tree. Any other element has its pending semantic elements
    /// finished, with the cursor on its range; what stays pending is handed
    /// to its parent. The body of the document has its range recorded.
    pub open spec fn closed_node(self) -> ParserView {
        let t = self.tree.top() as int;
        match self.style_sheet() {
            Some(c) => ParserView { tree: self.tree.with_top_removed(), css: self.css.push(c), ..self },
            None => {
                let is_body = self.element_name(t) == Some(lit("body"));
                let body = if is_body {
                    (self.range(t), self.tree.nodes[t].data.head().len() as usize)
                } else {
                    self.body
                };
                let text = if has_doctitle(self.pending[t]) {
                    self.tree.content(t, 0)
                } else {
                    Seq::<u8>::empty()
                };
                let (s2, up) = closed_all(
                    self.pending[t],
                    StateView { cursor: self.range(t), ..self.state },
                    text,
                    Seq::<ElementView>::empty(),
                );
                let pp = self.tree.nodes[t].parent.unwrap() as int;
                let cleared = self.pending.update(t, Seq::<ElementView>::empty());
                ParserView {
                    tree: self.tree.with_top_closed(),
                    state: s2,
                    pending: cleared.update(pp, cleared[pp] + up),
                    body,
                    body_node: if is_body {
                        Some(t as usize)
                    } else {
                        self.body_node
                    },
                    css: self.css,
                }
            },
        }
    }

    /// The parser after every open node inside `parent` closed, the innermost first.
    pub open spec fn settled(self, parent: usize) -> ParserView
        decreases self.tree.open.len(),
    {
        if self.tree.open.len() < 2 || self.tree.top() == parent {
            self
        } else {
            self.closed_node().settled(parent)
        }
    }

    /// The parser after `node` closed: the open nodes inside it close first,
    /// the innermost first, then the node itself. A node that is not an open
    /// element is left alone.
    pub open spec fn popped(self, node: usize) -> ParserView {
        if node < self.tree.nodes.len() && self.tree.nodes[node as int].data.is_open_element() {
            self.closed_through(node)
        } else {
            self
        }
    }

    /// The parser after the open nodes closed, the innermost first, up to and with `node`.
    pub open spec fn closed_through(self, node: usize) -> ParserView
        decreases self.tree.open.len(),
    {
        if self.tree.open.len() < 2 {
            self
        } else if self.tree.top() == node {
            self.closed_node()
        } else {
            self.closed_node().closed_through(node)
        }
    }
}

impl ParserView {
    /// The elements that a dispatch has opened, or none.
    pub open spec fn opened(elems: Option<Seq<ElementView>>) -> Seq<ElementView> {
        match elems {
            Some(es) => es,
            None => Seq::<ElementView>::empty(),
        }
    }

    /// The parser after `child` was appended to `parent`, and the node that
    /// holds the child, or why the tree refused it.
    ///
    /// The parent must be the document or an open element that can have
    /// children. The open nodes inside the parent close first. An element
    /// that is appended inside another has the rules run on its attributes,
    /// with the cursor where the element will start, and has the identifiers
    /// that they resolved written back before it takes its place in the tree.
    pub open spec fn appended(self, parent: usize, child: ChildView) -> (ParserView, Result<usize, TreeError>) {
        if parent >= self.tree.nodes.len() || !(parent == 0
            || self.tree.nodes[parent as int].data.is_open_element()) {
            (self, Err(TreeError::NotInnermost))
        } else if !self.tree.nodes[parent as int].data.is_container() {
            (self, Err(TreeError::NotAContainer))
        } else {
            let p = self.settled(parent);
            match child {
                ChildView::Text(t) => p.with_text_child(parent, t),
                ChildView::Comment(t) => p.with_leaf(parent, DataView::Comment { text: t }),
                ChildView::Instruction { target, data } => p.with_leaf(
                    parent,
                    DataView::Instruction { target, data },
                ),
                ChildView::Doctype { name } => p.with_leaf(parent, DataView::Doctype { name }),
                ChildView::Node { name, html, attrs } => p.with_node_child(parent, name, html, attrs),
            }
        }
    }

    /// The parser after text was appended to `parent`, the innermost open node.
    pub open spec fn with_text_child(self, parent: usize, t: Seq<u8>) -> (ParserView, Result<usize, TreeError>) {
        match refusal(self.tree, parent, text_len(self.tree, t)) {
            Some(e) => (self, Err(e)),
            None => (
                ParserView {
                    tree: with_text(self.tree, t),
                    pending: if self.tree.ends_in_text() {
                        self.pending
                    } else {
                        self.pending.push(Seq::<ElementView>::empty())
                    },
                    ..self
                },
                Ok(
                    if self.tree.ends_in_text() {
                        self.tree.nodes[parent as int].children.last()
                    } else {
                        self.tree.nodes.len() as usize
                    },
                ),
            ),
        }
    }

    /// The state, the attributes and the elements after the rules ran on an
    /// element that is about to be appended to `parent`. Directly under the
    /// document no rule runs.
    pub open spec fn ruled(self, parent: usize, attrs: AttrSeq) -> (StateView, AttrSeq, Seq<ElementView>) {
        if parent == 0 {
            (self.state, attrs, Seq::<ElementView>::empty())
        } else {
            let at = (self.tree.nodes[parent as int].end - self.tree.nodes[parent as int].data.tail().len()) as usize;
            let (s2, a2, elems) = dispatched(
                StateView { cursor: DocumentRange { start: at, end: at }, ..self.state },
                attrs,
            );
            (s2, rewritten(Self::opened(elems), a2, Self::opened(elems).len() as int), Self::opened(elems))
        }
    }

    /// The parser after an element was appended to `parent`, the innermost open node.
    pub open spec fn with_node_child(self, parent: usize, name: Seq<u8>, html: bool, attrs: AttrSeq) -> (
        ParserView,
        Result<usize, TreeError>,
    ) {
        let (s2, a3, elems) = self.ruled(parent, attrs);
        let data = fresh_element(name, html, a3);
        let q = ParserView { state: s2, ..self };
        match refusal(self.tree, parent, own_len(data)) {
            Some(e) => (q, Err(e)),
            None => (
                ParserView {
                    tree: self.tree.with_element(data, own_len(data)),
                    pending: self.pending.push(elems),
                    ..q
                },
                Ok(self.tree.nodes.len() as usize),
            ),
        }
    }

    /// The parser after a childless node that is no element and no text was
    /// appended to `parent`, the innermost open node.
    pub open spec fn with_leaf(self, parent: usize, data: DataView) -> (ParserView, Result<usize, TreeError>) {
        match refusal(self.tree, parent, own_len(data)) {
            Some(e) => (self, Err(e)),
            None => (
                ParserView {
                    tree: self.tree.with_leaf(data, own_len(data)),
                    pending: self.pending.push(Seq::<ElementView>::empty()),
                    ..self
                },
                Ok(self.tree.nodes.len() as usize),
            ),
        }
    }
}

impl HTMLParser {
    /// The invariant of the parser.
    pub open spec fn wf(&self) -> bool {
        self@.wf()
    }

    /// A parser at the start of the extraction of `document`.
    pub fn new(document: Uri, archives: ArchiveTable) -> (r: HTMLParser)
        ensures
            r@ == ParserView::initial(document@, archives@),
            r.wf(),
    {
        let mut pending: Vec<SHTMLElements> = Vec::new();
        pending.push(SHTMLElements::new());
        let r = HTMLParser {
            tree: Tree::new(),
            state: ExtractorState::new(document, archives),
            pending,
            css: Vec::new(),
            body: (DocumentRange { start: 0, end: 0 }, 0),
            body_node: None,
        };
        proof {
            let g = ParserView::initial(document@, archives@);
            assert(r@.pending =~= g.pending);
            assert(r@.css =~= g.css);
        }
        r
    }

    /// The node tree.
    pub fn tree(&self) -> (r: &Tree)
        ensures
            r@ == self@.tree,
    {
        &self.tree
    }

    /// The state of the extraction.
    pub fn state(&self) -> (r: &ExtractorState)
        ensures
            r@ == self@.state,
    {
        &self.state
    }

    /// The style sheets hoisted so far.
    pub fn css(&self) -> (r: &Vec<CSS>)
        ensures
            css_view(r@) == self@.css,
    {
        &self.css
    }

    /// The range of the body and the length of its start tag, once the body has closed.
    pub fn body(&self) -> (r: (DocumentRange, usize))
        ensures
            r == self@.body,
    {
        self.body
    }

    /// The document node.
    pub fn get_document(&self) -> (r: usize)
        ensures
            r == 0,
    {
        0
    }

    /// The pending semantic elements of node `id`.
    pub fn pending(&self, id: usize) -> (r: &SHTMLElements)
        requires
            id < self@.pending.len(),
        ensures
            r@ == self@.pending[id as int],
    {
        &self.pending[id]
    }

    /// Records an error of the markup parser as a warning. It does not stop
    /// the extraction, but like every diagnostic it makes it fail in the end.
    pub fn parse_error(&mut self, msg: &[u8])
        ensures
            final(self)@ == (ParserView {
                state: old(self)@.state.with_diagnostic(DiagnosticLevel::Warning, msg@),
                ..old(self)@
            }),
            old(self).wf() ==> final(self).wf(),
            final(self)@.state.diagnostics.len() >= old(self)@.state.diagnostics.len(),
    {
        self.state.add_diagnostic(DiagnosticLevel::Warning, copy_bytes(msg));
    }

    /// The style sheet that the innermost open node is, if it is one.
    fn style_sheet(&self) -> (r: Option<CSS>)
        requires
            self.wf(),
            self@.tree.open.len() >= 2,
        ensures
            match r {
                Some(c) => self@.style_sheet() == Some(c@),
                None => self@.style_sheet() is None,
            },
    {
        let t = self.tree.top();
        let pp = match self.tree.parent(t) {
            Some(pp) => pp,
            None => { return None; },
        };
        proof {
            assert(self@.tree.node_wf(t as int));
        }
        let in_head = match self.tree.data(pp) {
            NodeData::Element { name, .. } => eq_str(name.as_slice(), "head"),
            _ => false,
        };
        if !in_head {
            return None;
        }
        match self.tree.data(t) {
            NodeData::Element { name, attrs, .. } => {
                if eq_str(name.as_slice(), "link") {
                    let is_sheet = match attrs.value("rel".as_bytes()) {
                        Some(v) => eq_str(v.as_slice(), "stylesheet"),
                        None => false,
                    };
                    if !is_sheet {
                        return None;
                    }
                    match attrs.value("href".as_bytes()) {
                        Some(h) => Some(CSS::Link(copy_bytes(h.as_slice()))),
                        None => None,
                    }
                } else if eq_str(name.as_slice(), "style") {
                    Some(CSS::Inline(self.tree.serialize_content(t)))
                } else {
                    None
                }
            },
            _ => None,
        }
    }

    /// Whether one of the pending elements of node `t` marks the title of the document.
    fn marks_title(&self, t: usize) -> (r: bool)
        requires
            t < self@.pending.len(),
        ensures
            r == has_doctitle(self@.pending[t as int]),
    {
        let elems = &self.pending[t];
        let mut i: usize = 0;
        while i < elems.elems.len()
            invariant
                i <= elems.elems.len(),
                elems@ == self@.pending[t as int],
                elems.elems@.len() == elems@.len(),
                forall|k: int| 0 <= k < i ==> !(#[trigger] elems@[k] is Doctitle),
            decreases elems.elems.len() - i,
        {
            assert(elems@[i as int] == elems.elems@[i as int]@);
            match &elems.elems[i] {
                OpenSHTMLElement::Doctitle => {
                    return true;
                },
                _ => {},
            }
            i += 1;
        }
        false
    }

    /// Closes the innermost open element.
    fn close_top(&mut self)
        requires
            old(self).wf(),
            old(self)@.tree.open.len() >= 2,
        ensures
            final(self).wf(),
            final(self)@ == old(self)@.closed_node(),
            final(self)@.tree.open.len() == old(self)@.tree.open.len() - 1,
            final(self)@.tree.nodes.len() == old(self)@.tree.nodes.len(),
            final(self)@.state.diagnostics.len() >= old(self)@.state.diagnostics.len(),
            final(self)@.state.narrative.len() <= old(self)@.state.narrative.len(),
            final(self)@.state.content.len() <= old(self)@.state.content.len(),
            final(self)@.state.narrative.len() + scopes_in(old(self)@.pending[old(self)@.tree.top() as int])
                >= old(self)@.state.narrative.len(),
            final(self)@.state.content.len() + contents_in(old(self)@.pending[old(self)@.tree.top() as int])
                >= old(self)@.state.content.len(),
            old(self)@.tree.ranges_kept(final(self)@.tree, -1),
            old(self)@.style_sheet() is Some ==> final(self)@.state == old(self)@.state,
            old(self)@.style_sheet() is None ==> (StateView {
                cursor: old(self)@.range(old(self)@.tree.top() as int),
                ..old(self)@.state
            }).recorded_since(final(self)@.state),
    {
        let ghost p = self@;
        let t = self.tree.top();
        proof {
            assert(p.tree.open[p.tree.open.len() - 1] == p.tree.top());
            assert(p.tree.open[p.tree.open.len() - 2] < p.tree.open[p.tree.open.len() - 1]);
            let pp = p.tree.open[p.tree.open.len() - 2];
            assert(p.tree.nodes[t as int].parent == Some(pp));
            assert(p.tree.node_wf(t as int));
            lemma_nested_tail(p.tree, t as int);
        }
        match self.style_sheet() {
            Some(c) => {
                proof {
                    lemma_scopes_in(p.pending[t as int]);
                }
                self.css.push(c);
                self.tree.remove_top();
                assert(self@.css =~= p.css.push(c@));
                return ;
            },
            None => {},
        }
        let range = DocumentRange { start: self.tree.start(t), end: self.tree.end(t) };
        let is_body = match self.tree.data(t) {
            NodeData::Element { name, .. } => eq_str(name.as_slice(), "body"),
            _ => false,
        };
        if is_body {
            let d = self.tree.data(t);
            let inner: usize = match d.own_len() {
                Some(n) => n - d.tail_len(),
                None => 0,
            };
            self.body = (range, inner);
            self.body_node = Some(t);
        }
        let text: Vec<u8> = if self.marks_title(t) {
            self.tree.serialize_content(t)
        } else {
            Vec::new()
        };
        let pp: usize = match self.tree.parent(t) {
            Some(pp) => pp,
            None => 0,
        };
        let mut elems = SHTMLElements::new();
        core::mem::swap(&mut self.pending[t], &mut elems);
        self.state.set_cursor(range);
        elems.close(&mut self.state, text.as_slice());
        let ghost up = elems@;
        let mut up_elems = elems.take();
        let ghost before = self.pending[pp as int]@;
        self.pending[pp].elems.append(&mut up_elems);
        self.tree.close_top();
        proof {
            let g = p.closed_node();
            let cleared = p.pending.update(t as int, Seq::<ElementView>::empty());
            assert(self@.pending[pp as int] =~= cleared[pp as int] + up);
            assert(self@.pending =~= g.pending);
        }
    }

    /// Closes every open node inside `parent`, the innermost first.
    fn settle(&mut self, parent: usize)
        requires
            old(self).wf(),
        ensures
            final(self).wf(),
            final(self)@ == old(self)@.settled(parent),
            final(self)@.tree.nodes.len() == old(self)@.tree.nodes.len(),
            final(self)@.state.diagnostics.len() >= old(self)@.state.diagnostics.len(),
            final(self)@.state.narrative.len() <= old(self)@.state.narrative.len(),
            final(self)@.state.content.len() <= old(self)@.state.content.len(),
            old(self)@.tree.ranges_kept(final(self)@.tree, -1),
    {
        while self.tree.depth() >= 2 && self.tree.top() != parent
            invariant
                self.wf(),
                self@.state.diagnostics.len() >= old(self)@.state.diagnostics.len(),
                self@.state.narrative.len() <= old(self)@.state.narrative.len(),
                self@.state.content.len() <= old(self)@.state.content.len(),
                old(self)@.tree.ranges_kept(self@.tree, -1),
                self@.settled(parent) == old(self)@.settled(parent),
                self@.tree.nodes.len() == old(self)@.tree.nodes.len(),
            decreases self@.tree.open.len(),
        {
            let ghost before = self@.tree;
            self.close_top();
            proof {
                lemma_ranges_kept_on(old(self)@.tree, before, self@.tree, -1);
            }
        }
    }

    /// Closes `node`: the open nodes inside it close first, the innermost
    /// first, so that the semantic elements of a node are finished before
    /// those of any of its ancestors. A node that is not an open element is
    /// left alone.
    pub fn pop(&mut self, node: usize)
        requires
            old(self).wf(),
        ensures
            final(self).wf(),
            final(self)@ == old(self)@.popped(node),
            final(self)@.state.diagnostics.len() >= old(self)@.state.diagnostics.len(),
            final(self)@.state.narrative.len() <= old(self)@.state.narrative.len(),
            final(self)@.state.content.len() <= old(self)@.state.content.len(),
            old(self)@.tree.ranges_kept(final(self)@.tree, -1),
    {
        if !self.tree.is_open(node) {
            return ;
        }
        loop
            invariant_except_break
                self@.closed_through(node) == old(self)@.closed_through(node),
            invariant
                self.wf(),
                self@.state.diagnostics.len() >= old(self)@.state.diagnostics.len(),
                self@.state.narrative.len() <= old(self)@.state.narrative.len(),
                self@.state.content.len() <= old(self)@.state.content.len(),
                old(self)@.tree.ranges_kept(self@.tree, -1),
            ensures
                self@ == old(self)@.closed_through(node),
            decreases self@.tree.open.len(),
        {
            if self.tree.depth() < 2 {
                break ;
            }
            let t = self.tree.top();
            let ghost before = self@.tree;
            self.close_top();
            proof {
                lemma_ranges_kept_on(old(self)@.tree, before, self@.tree, -1);
            }
            if t == node {
                break ;
            }
        }
    }

    /// Appends a child to `parent` and says which node holds it.
    pub fn append(&mut self, parent: usize, child: NodeOrText) -> (r: Result<usize, TreeError>)
        requires
            old(self).wf(),
            child.wf(),
        ensures
            final(self).wf(),
            (final(self)@, r) == old(self)@.appended(parent, child@),
            final(self)@.state.diagnostics.len() >= old(self)@.state.diagnostics.len(),
            old(self)@.tree.ranges_kept(
                final(self)@.tree,
                match r {
                    Ok(id) => id as int,
                    Err(_) => -1,
                },
            ),
    {
        if parent >= self.tree.len() || !(parent == 0 || self.tree.is_open(parent)) {
            return Err(TreeError::NotInnermost);
        }
        if !self.tree.is_container(parent) {
            return Err(TreeError::NotAContainer);
        }
        self.settle(parent);
        let ghost settled = self@.tree;
        let r = match child {
            NodeOrText::AppendText(t) => self.append_text(parent, t),
            NodeOrText::AppendComment(t) => {
                let r = self.tree.append_comment(parent, t);
                self.grow(r)
            },
            NodeOrText::AppendInstruction { target, data } => {
                let r = self.tree.append_instruction(parent, target, data);
                self.grow(r)
            },
            NodeOrText::AppendDoctype { name, public_id, system_id } => {
                let r = self.tree.append_doctype(parent, name, public_id, system_id);
                self.grow(r)
            },
            NodeOrText::AppendNode(e) => self.append_node(parent, e),
        };
        proof {
            let except = match r {
                Ok(id) => id as int,
                Err(_) => -1,
            };
            if child@ is Text && settled.ends_in_text() && r is Ok {
                lemma_ranges_kept_then(old(self)@.tree, settled, self@.tree, except);
            } else {
                lemma_ranges_kept_then(old(self)@.tree, settled, self@.tree, -1);
                assert(old(self)@.tree.ranges_kept(self@.tree, except));
            }
        }
        r
    }

    /// Appends text to `parent`, the innermost open node.
    fn append_text(&mut self, parent: usize, t: Vec<u8>) -> (r: Result<usize, TreeError>)
        requires
            old(self).wf(),
        ensures
            final(self).wf(),
            (final(self)@, r) == old(self)@.with_text_child(parent, t@),
            final(self)@.state.diagnostics.len() >= old(self)@.state.diagnostics.len(),
            old(self)@.tree.ranges_kept(
                final(self)@.tree,
                if old(self)@.tree.ends_in_text() && r is Ok {
                    old(self)@.tree.nodes[parent as int].children.last() as int
                } else {
                    -1
                },
            ),
    {
        let ghost p = self@;
        let r = self.tree.append_text(parent, t.as_slice());
        match r {
            Ok(id) => {
                if self.pending.len() < self.tree.len() {
                    self.pending.push(SHTMLElements::new());
                }
                proof {
                    let g = p.with_text_child(parent, t@).0;
                    assert(self@.pending =~= g.pending);
                }
                Ok(id)
            },
            Err(e) => Err(e),
        }
    }

    /// Runs the rules on an element that is about to be appended to `parent`.
    fn rule(&mut self, parent: usize, attrs: &mut Attributes) -> (elems: SHTMLElements)
        requires
            old(self).wf(),
            old(attrs).wf(),
            parent < old(self)@.tree.nodes.len(),
        ensures
            final(self).wf(),
            final(attrs).wf(),
            final(self)@ == (ParserView { state: final(self)@.state, ..old(self)@ }),
            (final(self)@.state, final(attrs)@, elems@) == old(self)@.ruled(parent, old(attrs)@),
            final(self)@.state.diagnostics.len() >= old(self)@.state.diagnostics.len(),
            final(self)@.state.narrative.len() == old(self)@.state.narrative.len() + scopes_in(elems@),
            final(self)@.state.content.len() == old(self)@.state.content.len() + contents_in(elems@),
            old(self)@.tree.ranges_kept(final(self)@.tree, -1),
    {
        if parent == 0 {
            let none = SHTMLElements::new();
            assert(scopes_in(none@) == 0 && contents_in(none@) == 0);
            return none;
        }
        proof {
            assert(self@.tree.node_wf(parent as int));
            lemma_nested_tail(self@.tree, parent as int);
        }
        let at: usize = self.tree.end(parent) - self.tree.data(parent).tail_len();
        self.state.set_cursor(DocumentRange { start: at, end: at });
        let elems: SHTMLElements = match applicable_rules(&mut self.state, attrs) {
            Some(es) => es,
            None => {
                let none = SHTMLElements::new();
                assert(scopes_in(none@) == 0 && contents_in(none@) == 0);
                none
            },
        };
        update_attributes(&elems, attrs);
        elems
    }

    /// Appends an element to `parent`, the innermost open node.
    fn append_node(&mut self, parent: usize, e: NewElement) -> (r: Result<usize, TreeError>)
        requires
            old(self).wf(),
            e.wf(),
            parent < old(self)@.tree.nodes.len(),
        ensures
            final(self).wf(),
            (final(self)@, r) == old(self)@.with_node_child(parent, e.name(), e.html(), e.attrs()),
            final(self)@.state.diagnostics.len() >= old(self)@.state.diagnostics.len(),
            old(self)@.tree.ranges_kept(final(self)@.tree, -1),
    {
        let ghost p = self@;
        let mut attrs = e.attrs;
        let elems = self.rule(parent, &mut attrs);
        let r = self.tree.append_element(parent, e.name, e.html, attrs);
        match r {
            Ok(id) => {
                self.pending.push(elems);
                proof {
                    assert(self@.pending =~= p.pending.push(elems@));
                }
                Ok(id)
            },
            Err(e) => Err(e),
        }
    }

    /// One more node without pending elements, where the tree has taken one.
    fn grow(&mut self, r: Result<usize, TreeError>) -> (out: Result<usize, TreeError>)
        requires
            old(self)@.tree.wf(),
            old(self)@.state.wf(),
            old(self)@.pending.len() + (if r is Ok { 1int } else { 0int }) == old(self)@.tree.nodes.len(),
            old(self)@.body_node matches Some(b) ==> b < old(self)@.pending.len(),
        ensures
            out == r,
            final(self).wf(),
            final(self)@ == (ParserView {
                pending: if r is Ok {
                    old(self)@.pending.push(Seq::<ElementView>::empty())
                } else {
                    old(self)@.pending
                },
                ..old(self)@
            }),
            final(self)@.state.diagnostics.len() >= old(self)@.state.diagnostics.len(),
            old(self)@.tree.ranges_kept(final(self)@.tree, -1),
    {
        match r {
            Ok(id) => {
                self.pending.push(SHTMLElements::new());
                assert(self@.pending =~= old(self)@.pending.push(Seq::<ElementView>::empty()));
                Ok(id)
            },
            Err(e) => Err(e),
        }
    }
}

// ----- the end of the extraction -----

/// Everything that the extraction of a document has produced.
#[derive(Clone, Debug, PartialEq, Eq)]
pub struct Bundle {
    /// What was found: the narrative, the content, the resources, the facts.
    pub found: Extraction,
    /// The serialized document.
    pub html: Vec<u8>,
    /// The style sheets of the document, in order.
    pub css: Vec<CSS>,
    /// The range of the body in the serialized document.
    pub body: DocumentRange,
    /// Where the content of the body starts, counted from the start of the body.
    pub inner_offset: usize,
}

/// A bundle as mathematical data.
pub struct BundleView {
    pub found: ExtractionView,
    pub html: Seq<u8>,
    pub css: Seq<CssView>,
    pub body: DocumentRange,
    pub inner_offset: usize,
}

impl View for Bundle {
    type V = BundleView;

    open spec fn view(&self) -> BundleView {
        BundleView {
            found: self.found@,
            html: self.html@,
            css: css_view(self.css@),
            body: self.body,
            inner_offset: self.inner_offset,
        }
    }
}

/// Why the extraction of a document produced nothing.
#[derive(Clone, Debug, PartialEq, Eq)]
pub struct Failure {
    /// The text of the diagnostics, or what else went wrong.
    pub log: Vec<u8>,
}

impl ParserView {
    /// What the extraction produces in the end.
    ///
    /// All open nodes close. Then the extraction fails if any diagnostic
    /// was recorded, whatever its severity; it fails if a scope is still
    /// open; and it fails if the recorded range of the body does not cut the
    /// markup of the body out of the serialized document. Otherwise it
    /// produces the bundle. There is no partial success.
    pub open spec fn finished(self) -> Result<BundleView, Seq<u8>> {
        let p = self.settled(0);
        if p.state.diagnostics.len() > 0 {
            Err(report(p.state.diagnostics))
        } else if !p.state.balanced() {
            Err(lit("Unbalanced sHTML document"))
        } else if !p.body_checks() {
            Err(lit("The range of the body is not the body"))
        } else {
            Ok(
                BundleView {
                    found: p.state.found(),
                    html: p.tree.serialization(),
                    css: p.css,
                    body: p.body.0,
                    inner_offset: p.body.1,
                },
            )
        }
    }
}

impl ParserView {
    /// Whether the recorded range of the body, if a body has closed, cuts
    /// the markup of the body out of the serialized document.
    pub open spec fn body_checks(self) -> bool {
        match self.body_node {
            None => true,
            Some(b) => {
                &&& self.body.0.start <= self.body.0.end <= self.tree.serialization().len()
                &&& self.tree.serialization().subrange(self.body.0.start as int, self.body.0.end as int)
                    == self.tree.markup(b as int)
            },
        }
    }
}

impl HTMLParser {
    /// Ends the extraction.
    pub fn finish(self) -> (r: Result<Bundle, Failure>)
        requires
            self.wf(),
        ensures
            match r {
                Ok(b) => self@.finished() == Ok::<BundleView, Seq<u8>>(b@),
                Err(f) => self@.finished() == Err::<BundleView, Seq<u8>>(f.log@),
            },
            self@.state.diagnostics.len() > 0 ==> r is Err,
            r matches Ok(b) ==> self@.settled(0).body_checks(),
    {
        let mut this = self;
        this.settle(0);
        if this.state.has_diagnostics() {
            return Err(Failure { log: this.state.report() });
        }
        let html = this.tree.serialize();
        let (body, inner_offset) = this.body;
        let checks: bool = match this.body_node {
            None => true,
            Some(b) => {
                if body.start <= body.end && body.end <= html.len() {
                    let cut = crate::text::slice_bytes(html.as_slice(), body.start, body.end);
                    let own = this.tree.serialize_node(b);
                    crate::text::eq_bytes(cut.as_slice(), own.as_slice())
                } else {
                    false
                }
            },
        };
        let css = this.css;
        match this.state.take() {
            Err(_) => Err(Failure { log: bytes_of("Unbalanced sHTML document") }),
            Ok(found) => {
                if !checks {
                    return Err(Failure { log: bytes_of("The range of the body is not the body") });
                }
                Ok(Bundle { found, html, css, body, inner_offset })
            },
        }
    }
}

/// What the markup parser reports.
pub enum Event {
    /// A child is appended to a node.
    Append { parent: usize, child: NodeOrText },
    /// A node closes.
    Pop(usize),
    /// The markup is malformed.
    ParseError(Vec<u8>),
}

/// An event as mathematical data.
pub enum EventView {
    Append { parent: usize, child: ChildView },
    Pop(usize),
    ParseError(Seq<u8>),
}

impl View for Event {
    type V = EventView;

    open spec fn view(&self) -> EventView {
        match self {
            Event::Append { parent, child } => EventView::Append { parent: *parent, child: child@ },
            Event::Pop(n) => EventView::Pop(*n),
            Event::ParseError(m) => EventView::ParseError(m@),
        }
    }
}

impl Event {
    /// Element children have attributes with unique names.
    pub open spec fn wf(&self) -> bool {
        match self {
            Event::Append { child, .. } => child.wf(),
            _ => true,
        }
    }
}

/// The events that a vector holds.
pub open spec fn events_view(v: Seq<Event>) -> Seq<EventView> {
    Seq::new(v.len(), |i: int| v[i]@)
}

impl ParserView {
    /// The parser after one event, and the refusal of the tree, if it refused.
    #[verifier::opaque]
    pub open spec fn handled(self, e: EventView) -> (ParserView, Option<TreeError>) {
        match e {
            EventView::Append { parent, child } => {
                let (p, r) = self.appended(parent, child);
                (
                    p,
                    match r {
                        Ok(_) => None,
                        Err(e) => Some(e),
                    },
                )
            },
            EventView::Pop(n) => (self.popped(n), None),
            EventView::ParseError(m) => (
                ParserView { state: self.state.with_diagnostic(DiagnosticLevel::Warning, m), ..self },
                None,
            ),
        }
    }

    /// The parser after the events from position `from` on, up to the first
    /// that the tree refuses, and that refusal.
    pub open spec fn replayed(self, events: Seq<EventView>, from: int) -> (ParserView, Option<TreeError>)
        decreases events.len() - from,
    {
        if from < 0 || from >= events.len() {
            (self, None)
        } else {
            let (p, r) = self.handled(events[from]);
            if r is Some {
                (p, r)
            } else {
                p.replayed(events, from + 1)
            }
        }
    }
}

/// The message of a refusal of the tree.
pub open spec fn refusal_message(e: TreeError) -> Seq<u8> {
    match e {
        TreeError::NotInnermost => lit("A node was appended to a node that is not open"),
        TreeError::NotAContainer => lit("A node was appended to a void element"),
        TreeError::TooLarge => lit("The document is too large"),
    }
}

/// What the extraction of the document `uri` from `events` produces.
pub open spec fn extraction(events: Seq<EventView>, uri: UriView, archives: crate::resolve::ArchiveSeq) -> Result<
    BundleView,
    Seq<u8>,
> {
    let (p, r) = ParserView::initial(uri, archives).replayed(events, 0);
    match r {
        Some(e) => Err(refusal_message(e)),
        None => p.finished(),
    }
}

impl HTMLParser {
    /// Takes one event of the markup parser.
    pub fn handle(&mut self, e: Event) -> (r: Option<TreeError>)
        requires
            old(self).wf(),
            e.wf(),
        ensures
            final(self).wf(),
            (final(self)@, r) == old(self)@.handled(e@),
            final(self)@.state.diagnostics.len() >= old(self)@.state.diagnostics.len(),
    {
        proof {
            reveal(ParserView::handled);
        }
        match e {
            Event::Append { parent, child } => match self.append(parent, child) {
                Ok(_) => None,
                Err(e) => Some(e),
            },
            Event::Pop(n) => {
                self.pop(n);
                None
            },
            Event::ParseError(m) => {
                self.parse_error(m.as_slice());
                None
            },
        }
    }

    /// Takes the events of the markup parser one after the other, up to the
    /// first that the tree refuses.
    pub fn replay(&mut self, events: Vec<Event>) -> (r: Option<TreeError>)
        requires
            old(self).wf(),
            forall|i: int| 0 <= i < events@.len() ==> (#[trigger] events@[i]).wf(),
        ensures
            final(self).wf(),
            (final(self)@, r) == old(self)@.replayed(events_view(events@), 0),
            final(self)@.state.diagnostics.len() >= old(self)@.state.diagnostics.len(),
    {
        let ghost all = events@;
        let ghost evs = events_view(events@);
        let mut queue = events;
        let mut rest: Vec<Event> = Vec::new();
        let total = queue.len();
        // the events are taken from the back, so turn them round first
        while queue.len() > 0
            invariant
                rest@.len() + queue@.len() == all.len(),
                forall|i: int| 0 <= i < queue@.len() ==> queue@[i] == all[i],
                forall|i: int| 0 <= i < rest@.len() ==> rest@[i] == all[all.len() - 1 - i],
            decreases queue.len(),
        {
            match queue.pop() {
                Some(e) => {
                    rest.push(e);
                },
                None => {},
            }
        }
        let mut k: usize = 0;
        while rest.len() > 0
            invariant
                self.wf(),
                self@.state.diagnostics.len() >= old(self)@.state.diagnostics.len(),
                all.len() == total,
                evs == events_view(all),
                evs == events_view(events@),
                k + rest@.len() == all.len(),
                forall|i: int| 0 <= i < all.len() ==> (#[trigger] all[i]).wf(),
                forall|i: int| 0 <= i < rest@.len() ==> rest@[i] == all[all.len() - 1 - i],
                self@.replayed(evs, k as int) == old(self)@.replayed(evs, 0),
            decreases rest.len(),
        {
            match rest.pop() {
                Some(e) => {
                    assert(e == all[k as int]);
                    assert(evs[k as int] == e@);
                    let ghost before = self@;
                    match self.handle(e) {
                        Some(err) => {
                            proof {
                                assert(before.handled(evs[k as int]) == (self@, Some(err)));
                                assert(before.replayed(evs, k as int) == (self@, Some(err)));
                            }
                            return Some(err);
                        },
                        None => {
                            proof {
                                assert(before.handled(evs[k as int]) == (self@, None::<TreeError>));
                                assert(before.replayed(evs, k as int) == self@.replayed(evs, k + 1));
                            }
                        },
                    }
                    k += 1;
                },
                None => {},
            }
        }
        None
    }

    /// Extracts the document `uri` from the events of a markup parser.
    pub fn run(events: Vec<Event>, uri: Uri, archives: ArchiveTable) -> (r: Result<Bundle, Failure>)
        requires
            forall|i: int| 0 <= i < events@.len() ==> (#[trigger] events@[i]).wf(),
        ensures
            match r {
                Ok(b) => extraction(events_view(events@), uri@, archives@) == Ok::<BundleView, Seq<u8>>(b@),
                Err(f) => extraction(events_view(events@), uri@, archives@) == Err::<BundleView, Seq<u8>>(
                    f.log@,
                ),
            },
    {
        let mut parser = HTMLParser::new(uri, archives);
        match parser.replay(events) {
            Some(err) => Err(Failure { log: refusal_text(err) }),
            None => parser.finish(),
        }
    }
}

/// The message of a refusal of the tree.
pub fn refusal_text(e: TreeError) -> (r: Vec<u8>)
    ensures
        r@ == refusal_message(e),
{
    match e {
        TreeError::NotInnermost => bytes_of("A node was appended to a node that is not open"),
        TreeError::NotAContainer => bytes_of("A node was appended to a void element"),
        TreeError::TooLarge => bytes_of("The document is too large"),
    }
}

/// Idempotence. What an extraction produces is a function of the events,
/// of the document's identifier and of the archives: two extractions from
/// the same input produce the same narrative, the same content and the same
/// facts, or fail alike.
pub proof fn lemma_idempotent(
    events1: Seq<EventView>,
    events2: Seq<EventView>,
    uri: UriView,
    archives: crate::resolve::ArchiveSeq,
)
    requires
        events1 =~= events2,
    ensures
        extraction(events1, uri, archives) == extraction(events2, uri, archives),
        extraction(events1, uri, archives) matches Ok(b1) ==> extraction(events2, uri, archives) matches Ok(
            b2,
        ) && b1.found.elements == b2.found.elements && b1.found.triples.to_set()
            == b2.found.triples.to_set(),
{
}

/// Fail-fast. An extraction that ends with any diagnostic on record fails,
/// and it fails with the text of the diagnostics; it never produces a bundle.
pub proof fn lemma_any_diagnostic_fails(p: ParserView)
    requires
        p.settled(0).state.diagnostics.len() > 0,
    ensures
        p.finished() == Err::<BundleView, Seq<u8>>(report(p.settled(0).state.diagnostics)),
{
}

/// Nesting. Closing a node closes the innermost open node first: where the
/// innermost open node is not the node itself, closing the node is closing
/// the innermost open node and then closing the node.
pub proof fn lemma_innermost_first(p: ParserView, node: usize)
    requires
        p.tree.open.len() >= 2,
        p.tree.top() != node,
    ensures
        p.closed_through(node) == p.closed_node().closed_through(node),
{
}

} // verus!
