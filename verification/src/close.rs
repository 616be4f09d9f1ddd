//! The close engine.
//!
//! When a node closes, its pending semantic elements are finished, the most
//! recently opened first. An element is resolved and leaves its mark on the
//! state, or stays pending and is handed to the parent node, or is reported
//! as a structural error. Errors are recorded and the engine goes on.

use vstd::prelude::*;
use crate::errors::{ErrorView, SHTMLError};
use crate::open::{
    content_of, contents_in, copy_uris, elements_view, lemma_scopes_in, opt_uri, scope_of, scopes_in,
    uris_view,
    ElementView, OpenSHTMLElement, OpenTerm, OpenTermView, SHTMLElements,
};
use crate::rules::opt_element;
use crate::sections::DocumentRange;
use crate::state::{
    opt_term, ExtractorState, Frame, FrameView, Predicate, Resource, ResourceView, ScopeKind,
    StateView, TripleView,
};
use crate::terms::{
    OpenArg, PreVar, PreVarView, Term, TermNode, TermNodeView, TermSeq, VarOrSym, VarOrSymView,
};
use crate::text::copy_bytes;
use crate::uris::{Uri, UriView};

verus! {

/// The node of a term that refers to what a head refers to.
pub open spec fn head_node(h: VarOrSymView) -> TermNodeView {
    match h {
        VarOrSymView::S(u) => TermNodeView::Symbol(u),
        VarOrSymView::V(PreVarView::Resolved(u)) => TermNodeView::Variable(u),
        VarOrSymView::V(PreVarView::Unresolved(n)) => TermNodeView::Name(n),
    }
}

/// The nodes of an optional term.
pub open spec fn nodes_of(t: Option<TermSeq>) -> TermSeq {
    match t {
        Some(t) => t,
        None => Seq::<TermNodeView>::empty(),
    }
}

/// How many of two optional terms are there.
pub open spec fn parts_of(tp: Option<TermSeq>, df: Option<TermSeq>) -> usize {
    if tp is Some && df is Some {
        2
    } else if tp is Some || df is Some {
        1
    } else {
        0
    }
}

/// The finished form of an open term, and the state after the term under
/// construction that belongs to it was given up.
///
/// An application without arguments and a complex term without the term it
/// stands for are reported.
pub open spec fn finished(term: OpenTermView, s: StateView) -> (StateView, TermSeq) {
    let has = s.frames.len() > 0;
    let f = s.frames.last();
    match term {
        OpenTermView::Symref { uri, .. } => (s, seq![TermNodeView::Symbol(uri)]),
        OpenTermView::Varref { name, .. } => (s, seq![head_node(VarOrSymView::V(name))]),
        OpenTermView::OMA { head, .. } => if has && f is Args {
            (
                if f->count == 0 {
                    s.without_frame().with_error(ErrorView::MissingArguments)
                } else {
                    s.without_frame()
                },
                seq![TermNodeView::Application { args: f->count }, head_node(head)] + f->args,
            )
        } else {
            (
                s.with_error(ErrorView::MissingArguments),
                seq![TermNodeView::Application { args: 0 }, head_node(head)],
            )
        },
        OpenTermView::Complex(head) => if has && f is Complex && f->term is Some {
            (s.without_frame(), f->term.unwrap())
        } else if has && f is Complex {
            (s.without_frame().with_error(ErrorView::MissingTermForComplex(head)), seq![head_node(head)])
        } else {
            (s.with_error(ErrorView::MissingTermForComplex(head)), seq![head_node(head)])
        },
        OpenTermView::OML { name } => if has && f is Decl {
            (
                s.without_frame(),
                seq![TermNodeView::Label { name, parts: parts_of(f->tp, f->df) }] + nodes_of(f->tp)
                    + nodes_of(f->df),
            )
        } else {
            (s, seq![TermNodeView::Label { name, parts: 0 }])
        },
    }
}

/// The node of a term that refers to what a head refers to.
pub fn make_head_node(h: &VarOrSym) -> (r: TermNode)
    ensures
        r@ == head_node(h@),
{
    match h {
        VarOrSym::S(u) => TermNode::Symbol(u.copy()),
        VarOrSym::V(PreVar::Resolved(u)) => TermNode::Variable(u.copy()),
        VarOrSym::V(PreVar::Unresolved(n)) => TermNode::Name(copy_bytes(n.as_slice())),
    }
}

/// Which kind of frame is innermost.
#[derive(Copy, Clone, Debug, PartialEq, Eq, Structural)]
pub enum FrameKind {
    Empty,
    Decl,
    Args,
    Complex,
    Notation,
}

/// The kind of the innermost term under construction.
pub open spec fn frame_kind(s: StateView) -> FrameKind {
    if s.frames.len() == 0 {
        FrameKind::Empty
    } else {
        match s.frames.last() {
            FrameView::Decl { .. } => FrameKind::Decl,
            FrameView::Args { .. } => FrameKind::Args,
            FrameView::Complex { .. } => FrameKind::Complex,
            FrameView::Notation { .. } => FrameKind::Notation,
        }
    }
}

/// Gives up the innermost term under construction if it is of kind `kind`.
pub fn take_frame(state: &mut ExtractorState, kind: FrameKind) -> (r: Option<Frame>)
    ensures
        match r {
            Some(f) => frame_kind(old(state)@) == kind && kind != FrameKind::Empty && f@
                == old(state)@.frames.last() && final(state)@ == old(state)@.without_frame(),
            None => (frame_kind(old(state)@) != kind || kind == FrameKind::Empty) && final(state)@
                == old(state)@,
        },
        old(state).wf() ==> final(state).wf(),
        final(state)@.diagnostics.len() >= old(state)@.diagnostics.len(),
        final(state)@.narrative.len() == old(state)@.narrative.len(),
        final(state)@.content == old(state)@.content,
        old(state)@.recorded_since(final(state)@),
{
    match state.pop_frame() {
        None => None,
        Some(f) => {
            let k = match &f {
                Frame::Decl { .. } => FrameKind::Decl,
                Frame::Args { .. } => FrameKind::Args,
                Frame::Complex { .. } => FrameKind::Complex,
                Frame::Notation { .. } => FrameKind::Notation,
            };
            if k == kind {
                Some(f)
            } else {
                state.open_frame(f);
                proof {
                    assert(state@.frames =~= old(state)@.frames);
                }
                None
            }
        },
    }
}

/// Finishes an open term.
pub fn finish_term(term: &OpenTerm, state: &mut ExtractorState) -> (r: Term)
    ensures
        (final(state)@, r@) == finished(term@, old(state)@),
        old(state).wf() ==> final(state).wf(),
        final(state)@.diagnostics.len() >= old(state)@.diagnostics.len(),
        final(state)@.narrative.len() == old(state)@.narrative.len(),
        final(state)@.content == old(state)@.content,
        old(state)@.recorded_since(final(state)@),
{
    match term {
        OpenTerm::Symref { uri, .. } => Term::leaf(TermNode::Symbol(uri.copy())),
        OpenTerm::Varref { name, .. } => {
            let h = VarOrSym::V(name.copy());
            Term::leaf(make_head_node(&h))
        },
        OpenTerm::OMA { head, .. } => {
            match take_frame(state, FrameKind::Args) {
                Some(Frame::Args { args, count }) => {
                    if count == 0 {
                        state.add_error(SHTMLError::MissingArguments);
                    }
                    let mut t = Term::empty();
                    t.push(TermNode::Application { args: count });
                    t.push(make_head_node(head));
                    t.append(&args);
                    assert(t@ =~= seq![TermNodeView::Application { args: count }, head_node(head@)]
                        + args@);
                    t
                },
                _ => {
                    state.add_error(SHTMLError::MissingArguments);
                    let mut t = Term::empty();
                    t.push(TermNode::Application { args: 0 });
                    t.push(make_head_node(head));
                    assert(t@ =~= seq![TermNodeView::Application { args: 0 }, head_node(head@)]);
                    t
                },
            }
        },
        OpenTerm::Complex(head) => {
            match take_frame(state, FrameKind::Complex) {
                Some(Frame::Complex { term: Some(t) }) => t,
                Some(_) => {
                    state.add_error(SHTMLError::MissingTermForComplex(head.copy()));
                    Term::leaf(make_head_node(head))
                },
                None => {
                    state.add_error(SHTMLError::MissingTermForComplex(head.copy()));
                    Term::leaf(make_head_node(head))
                },
            }
        },
        OpenTerm::OML { name } => {
            match take_frame(state, FrameKind::Decl) {
                Some(Frame::Decl { tp, df }) => {
                    let parts: usize = match (&tp, &df) {
                        (Some(_), Some(_)) => 2,
                        (Some(_), None) => 1,
                        (None, Some(_)) => 1,
                        (None, None) => 0,
                    };
                    let mut t = Term::empty();
                    t.push(TermNode::Label { name: copy_bytes(name.as_slice()), parts });
                    match &tp {
                        Some(x) => {
                            t.append(x);
                        },
                        None => {},
                    }
                    match &df {
                        Some(x) => {
                            t.append(x);
                        },
                        None => {},
                    }
                    assert(t@ =~= seq![TermNodeView::Label { name: name@, parts }] + nodes_of(
                        opt_term(tp),
                    ) + nodes_of(opt_term(df)));
                    t
                },
                _ => Term::leaf(TermNode::Label { name: copy_bytes(name.as_slice()), parts: 0 }),
            }
        },
    }
}

/// The state after the resource `r` was kept aside and an element that
/// refers to it was recorded in the narrative.
pub open spec fn kept_with(s: StateView, e: ElementView, r: ResourceView) -> StateView {
    s.with_resource(r).with_element(e, None, Some(s.resources.len() as usize), None)
}

/// The state after the element `c`, which takes terms, took the term `t`.
pub open spec fn consumed(c: ElementView, t: TermSeq, s: StateView) -> StateView {
    match c {
        ElementView::Arg(a) => match s.with_arg(a, t) {
            Some(s1) => s1,
            None => s.with_error(ErrorView::NotInContent),
        },
        ElementView::HeadTerm => match s.with_complex(t) {
            Some(s1) => s1,
            None => s.with_error(ErrorView::NotInContent),
        },
        ElementView::Type => {
            let s0 = StateView { in_term: false, ..s };
            match s0.with_part(t, false) {
                Some(s1) => s1,
                None => s0.with_error(ErrorView::NotInContent),
            }
        },
        ElementView::Definiens { uri, in_term } => {
            let s0 = StateView { in_term, ..s };
            match s0.with_part(t, true) {
                Some(s1) => s1,
                None => if uri is Some && s0.inside(ScopeKind::Paragraph) {
                    kept_with(s0, c, ResourceView::Term(t))
                } else {
                    s0.with_error(ErrorView::NotInContent)
                },
            }
        },
        ElementView::Conclusion { uri, in_term } => {
            let s0 = StateView { in_term, ..s };
            if s0.inside(ScopeKind::Paragraph) {
                kept_with(s0, c, ResourceView::Term(t))
            } else {
                s0.with_error(ErrorView::NotInParagraph)
            }
        },
        _ => s,
    }
}

/// Keeps a resource aside and records an element that refers to it.
pub fn keep_with(state: &mut ExtractorState, e: OpenSHTMLElement, r: Resource)
    ensures
        final(state)@ == kept_with(old(state)@, e@, r@),
        old(state).wf() ==> final(state).wf(),
        final(state)@.diagnostics.len() >= old(state)@.diagnostics.len(),
        final(state)@.narrative.len() == old(state)@.narrative.len(),
        final(state)@.content == old(state)@.content,
        old(state)@.recorded_since(final(state)@),
{
    let id = state.add_resource(r);
    state.add_element(e, None, Some(id), None);
}

/// Hands the term `t` to the element `c`, which takes terms.
pub fn consume(c: OpenSHTMLElement, t: Term, state: &mut ExtractorState)
    ensures
        final(state)@ == consumed(c@, t@, old(state)@),
        old(state).wf() ==> final(state).wf(),
        final(state)@.diagnostics.len() >= old(state)@.diagnostics.len(),
        final(state)@.narrative.len() == old(state)@.narrative.len(),
        final(state)@.content == old(state)@.content,
        old(state)@.recorded_since(final(state)@),
{
    match c {
        OpenSHTMLElement::Arg(a) => {
            if !state.add_arg(a, &t) {
                state.add_error(SHTMLError::NotInContent);
            }
        },
        OpenSHTMLElement::HeadTerm => {
            if !state.set_complex(t) {
                state.add_error(SHTMLError::NotInContent);
            }
        },
        OpenSHTMLElement::Type => {
            state.set_in_term(false);
            if !state.set_part(t, false) {
                state.add_error(SHTMLError::NotInContent);
            }
        },
        OpenSHTMLElement::Definiens { uri, in_term } => {
            state.set_in_term(in_term);
            if frame_is(state, FrameKind::Decl) {
                let took = state.set_part(t, true);
                assert(took);
            } else if uri.is_some() && state.inside(ScopeKind::Paragraph) {
                keep_with(state, OpenSHTMLElement::Definiens { uri, in_term }, Resource::Term(t));
            } else {
                state.add_error(SHTMLError::NotInContent);
            }
        },
        OpenSHTMLElement::Conclusion { uri, in_term } => {
            state.set_in_term(in_term);
            if state.inside(ScopeKind::Paragraph) {
                keep_with(state, OpenSHTMLElement::Conclusion { uri, in_term }, Resource::Term(t));
            } else {
                state.add_error(SHTMLError::NotInParagraph);
            }
        },
        _ => {},
    }
}

/// Whether the innermost term under construction is of kind `kind`.
pub fn frame_is(state: &mut ExtractorState, kind: FrameKind) -> (r: bool)
    ensures
        r == (frame_kind(old(state)@) == kind),
        final(state)@ == old(state)@,
        old(state).wf() ==> final(state).wf(),
        final(state)@.diagnostics.len() >= old(state)@.diagnostics.len(),
        final(state)@.narrative.len() == old(state)@.narrative.len(),
        final(state)@.content == old(state)@.content,
        old(state)@.recorded_since(final(state)@),
{
    match state.pop_frame() {
        None => kind == FrameKind::Empty,
        Some(f) => {
            let k = match &f {
                Frame::Decl { .. } => FrameKind::Decl,
                Frame::Args { .. } => FrameKind::Args,
                Frame::Complex { .. } => FrameKind::Complex,
                Frame::Notation { .. } => FrameKind::Notation,
            };
            state.open_frame(f);
            proof {
                assert(state@.frames =~= old(state)@.frames);
            }
            k == kind
        },
    }
}

/// What finishing one element leaves behind: the state, the elements of
/// the node that are still pending, and the element, if any, that is handed
/// to the parent node.
pub struct Closing {
    pub state: StateView,
    pub rest: Seq<ElementView>,
    pub pending: Option<ElementView>,
}

/// What becomes of a finished term that is not a formula of its own: the
/// element next to close takes it if it takes terms; otherwise the term is
/// handed up as long as an enclosing term is being read.
pub open spec fn handed(t: TermSeq, rest: Seq<ElementView>, s: StateView) -> Closing {
    if rest.len() > 0 && rest.last().takes_term() {
        Closing { state: consumed(rest.last(), t, s), rest: rest.drop_last(), pending: None }
    } else if s.in_term {
        Closing { state: s, rest, pending: Some(ElementView::ClosedTerm(t)) }
    } else {
        Closing { state: s, rest, pending: None }
    }
}

/// Hands on a finished term that is not a formula of its own.
pub fn hand(t: Term, rest: &mut SHTMLElements, state: &mut ExtractorState) -> (pending: Option<
    OpenSHTMLElement,
>)
    ensures
        (Closing { state: final(state)@, rest: final(rest)@, pending: opt_element(pending) }) == handed(
            t@,
            old(rest)@,
            old(state)@,
        ),
        old(state).wf() ==> final(state).wf(),
        final(state)@.diagnostics.len() >= old(state)@.diagnostics.len(),
        final(state)@.narrative.len() == old(state)@.narrative.len(),
        final(state)@.content == old(state)@.content,
        scopes_in(final(rest)@) == scopes_in(old(rest)@),
        contents_in(final(rest)@) == contents_in(old(rest)@),
        scope_of(opt_element(pending)) == 0,
        content_of(opt_element(pending)) == 0,
        old(state)@.recorded_since(final(state)@),
{
    let n = rest.len();
    if n > 0 {
        assert(rest@.last() == rest.elems@[n - 1]@);
        if rest.elems[n - 1].takes_term() {
            match rest.pop() {
                Some(c) => {
                    consume(c, t, state);
                    return None;
                },
                None => {
                    return None;
                },
            }
        }
    }
    if state.in_term() {
        Some(OpenSHTMLElement::ClosedTerm(t))
    } else {
        None
    }
}

/// The term that an element that takes terms finds when it closes without
/// having been handed one: the term opened on the same node, finished, or
/// else the markup of the node, taken literally.
pub open spec fn found_term(rest: Seq<ElementView>, s: StateView) -> (StateView, Seq<ElementView>, TermSeq) {
    if rest.len() > 0 && rest.last() is OpenTerm && !rest.last()->is_top {
        let (s1, t) = finished(rest.last()->term, s);
        (s1, rest.drop_last(), t)
    } else {
        (s, rest, seq![TermNodeView::Raw(s.cursor)])
    }
}

/// Finds the term of an element that takes terms and closes without one.
pub fn find_term(rest: &mut SHTMLElements, state: &mut ExtractorState) -> (t: Term)
    ensures
        (final(state)@, final(rest)@, t@) == found_term(old(rest)@, old(state)@),
        old(state).wf() ==> final(state).wf(),
        final(state)@.diagnostics.len() >= old(state)@.diagnostics.len(),
        final(state)@.narrative.len() == old(state)@.narrative.len(),
        final(state)@.content == old(state)@.content,
        scopes_in(final(rest)@) == scopes_in(old(rest)@),
        contents_in(final(rest)@) == contents_in(old(rest)@),
        old(state)@.recorded_since(final(state)@),
{
    let n = rest.len();
    if n > 0 {
        assert(rest@.last() == rest.elems@[n - 1]@);
        let sibling = match &rest.elems[n - 1] {
            OpenSHTMLElement::OpenTerm { is_top, .. } => !*is_top,
            _ => false,
        };
        if sibling {
            match rest.pop() {
                Some(OpenSHTMLElement::OpenTerm { term, .. }) => {
                    return finish_term(&term, state);
                },
                _ => {},
            }
        }
    }
    Term::leaf(TermNode::Raw(state.cursor()))
}

/// The fact that the document contains the content scope `uri`.
pub open spec fn contains(s: StateView, uri: UriView) -> TripleView {
    TripleView { subject: s.document.text(), predicate: Predicate::Contains, object: uri.text() }
}

/// The fact that the innermost content scope stands in relation `predicate` to `uri`.
pub open spec fn relates(s: StateView, predicate: Predicate, uri: UriView) -> TripleView {
    TripleView { subject: s.content.last().text(), predicate, object: uri.text() }
}

/// The state after a module, a structure or a morphism closed: its content
/// scope and its narrative scope close with it, and it is recorded in the
/// content and in the narrative. Where the scopes are not the innermost,
/// the element stands outside of what it belongs to.
pub open spec fn closed_content(e: ElementView, s: StateView) -> StateView {
    if s.content.len() > 0 && s.scope_is(ScopeKind::Module) {
        s.without_content().without_scope().with_declaration(e, None, None).with_element(
            e,
            None,
            None,
            None,
        ).with_triple(contains(s, s.content.last()))
    } else {
        s.with_error(ErrorView::NotInContent)
    }
}

/// Closes a module, a structure or a morphism.
pub fn close_content(e: OpenSHTMLElement, state: &mut ExtractorState)
    ensures
        final(state)@ == closed_content(e@, old(state)@),
        old(state).wf() ==> final(state).wf(),
        final(state)@.diagnostics.len() >= old(state)@.diagnostics.len(),
        final(state)@.narrative.len() <= old(state)@.narrative.len(),
        final(state)@.narrative.len() + 1 >= old(state)@.narrative.len(),
        final(state)@.content.len() <= old(state)@.content.len(),
        final(state)@.content.len() + 1 >= old(state)@.content.len(),
        old(state)@.recorded_since(final(state)@),
{
    if state.content_depth() > 0 && state.scope_is(ScopeKind::Module) {
        let subject = state.document_text();
        let uri = match state.pop_content() {
            Some(u) => u,
            None => { return ; },
        };
        state.pop_scope();
        state.add_declaration(e.copy(), None, None);
        state.add_element(e, None, None, None);
        state.add_triple(subject, Predicate::Contains, uri.to_bytes());
    } else {
        state.add_error(SHTMLError::NotInContent);
    }
}

/// The element with the symbols that its scope has gathered.
pub open spec fn about(e: ElementView, fors: Seq<UriView>) -> ElementView {
    match e {
        ElementView::Paragraph { kind, inline, styles, uri, .. } => ElementView::Paragraph {
            kind,
            inline,
            styles,
            uri,
            fors,
        },
        e => e,
    }
}

/// The state after a section, a paragraph or an exercise closed: its
/// narrative scope closes with it and it is recorded with its title. Where
/// the innermost narrative scope is not of kind `kind`, `error` is reported.
pub open spec fn closed_narrative(e: ElementView, kind: ScopeKind, error: ErrorView, s: StateView) -> StateView {
    if s.scope_is(kind) {
        s.without_scope().with_element(
            about(e, s.narrative.last().fors),
            s.narrative.last().title,
            None,
            None,
        )
    } else {
        s.with_error(error)
    }
}

/// Closes a section, a paragraph or an exercise.
pub fn close_narrative(e: OpenSHTMLElement, kind: ScopeKind, error: SHTMLError, state: &mut ExtractorState)
    ensures
        final(state)@ == closed_narrative(e@, kind, error@, old(state)@),
        old(state).wf() ==> final(state).wf(),
        final(state)@.diagnostics.len() >= old(state)@.diagnostics.len(),
        final(state)@.narrative.len() <= old(state)@.narrative.len(),
        final(state)@.narrative.len() + 1 >= old(state)@.narrative.len(),
        final(state)@.content == old(state)@.content,
        old(state)@.recorded_since(final(state)@),
{
    if state.scope_is(kind) {
        match state.pop_scope() {
            Some(sc) => {
                let e = match e {
                    OpenSHTMLElement::Paragraph { kind, inline, styles, uri, .. } => OpenSHTMLElement::Paragraph {
                        kind,
                        inline,
                        styles,
                        uri,
                        fors: sc.fors,
                    },
                    e => e,
                };
                state.add_element(e, sc.title, None, None);
            },
            None => {},
        }
    } else {
        state.add_error(error);
    }
}

/// The state after an optional term was kept aside, and where it is kept.
pub open spec fn stored(s: StateView, t: Option<TermSeq>) -> (StateView, Option<usize>) {
    match t {
        Some(t) => (s.with_resource(ResourceView::Term(t)), Some(s.resources.len() as usize)),
        None => (s, None),
    }
}

/// Keeps an optional term aside.
pub fn store(state: &mut ExtractorState, t: Option<Term>) -> (r: Option<usize>)
    ensures
        (final(state)@, r) == stored(old(state)@, opt_term(t)),
        old(state).wf() ==> final(state).wf(),
        final(state)@.diagnostics.len() >= old(state)@.diagnostics.len(),
        final(state)@.narrative.len() == old(state)@.narrative.len(),
        final(state)@.content == old(state)@.content,
        old(state)@.recorded_since(final(state)@),
{
    match t {
        Some(t) => Some(state.add_resource(Resource::Term(t))),
        None => None,
    }
}

/// What the declaration under construction has received, and the state
/// after it was given up.
pub open spec fn declared(s: StateView) -> (StateView, Option<TermSeq>, Option<TermSeq>) {
    if frame_kind(s) == FrameKind::Decl {
        (s.without_frame(), s.frames.last()->tp, s.frames.last()->df)
    } else {
        (s, None, None)
    }
}

/// The state after the declaration of a symbol closed: what the
/// declaration has received is kept aside and the symbol is recorded in the
/// innermost content scope. Outside of any content scope it is an error.
pub open spec fn closed_symbol(e: ElementView, uri: UriView, s: StateView) -> StateView {
    let (s0, tp, df) = declared(s);
    if s.content.len() == 0 {
        s0.with_error(ErrorView::NotInContent)
    } else {
        let (s1, first) = stored(s0, tp);
        let (s2, second) = stored(s1, df);
        s2.with_declaration(e, first, second).with_triple(relates(s, Predicate::Declares, uri))
    }
}

/// The state after the declaration of a variable closed: its narrative
/// scope closes with it, what the declaration has received is kept aside,
/// and the variable is recorded in the narrative. Where its scope is not the
/// innermost, the narrative is unbalanced.
pub open spec fn closed_variable(e: ElementView, s: StateView) -> StateView {
    let (s0, tp, df) = declared(s);
    if s0.scope_is(ScopeKind::Variable) {
        let (s1, first) = stored(s0.without_scope(), tp);
        let (s2, second) = stored(s1, df);
        s2.with_element(e, None, first, second)
    } else {
        s0.with_error(ErrorView::NotInNarrative)
    }
}

/// Gives up the declaration under construction and hands back what it has received.
fn take_declared(state: &mut ExtractorState) -> (r: (Option<Term>, Option<Term>))
    ensures
        (final(state)@, opt_term(r.0), opt_term(r.1)) == declared(old(state)@),
        old(state).wf() ==> final(state).wf(),
        final(state)@.diagnostics.len() >= old(state)@.diagnostics.len(),
        final(state)@.narrative.len() == old(state)@.narrative.len(),
        final(state)@.content == old(state)@.content,
        old(state)@.recorded_since(final(state)@),
{
    match take_frame(state, FrameKind::Decl) {
        Some(Frame::Decl { tp, df }) => (tp, df),
        _ => (None, None),
    }
}

/// Closes the declaration of a symbol.
pub fn close_symbol(e: OpenSHTMLElement, uri: &Uri, state: &mut ExtractorState)
    ensures
        final(state)@ == closed_symbol(e@, uri@, old(state)@),
        old(state).wf() ==> final(state).wf(),
        final(state)@.diagnostics.len() >= old(state)@.diagnostics.len(),
        final(state)@.narrative.len() == old(state)@.narrative.len(),
        final(state)@.content == old(state)@.content,
        old(state)@.recorded_since(final(state)@),
{
    let (tp, df) = take_declared(state);
    match state.current_content() {
        None => {
            state.add_error(SHTMLError::NotInContent);
        },
        Some(m) => {
            let first = store(state, tp);
            let second = store(state, df);
            state.add_declaration(e, first, second);
            state.add_triple(m.to_bytes(), Predicate::Declares, uri.to_bytes());
        },
    }
}

/// Closes the declaration of a variable.
pub fn close_variable(e: OpenSHTMLElement, state: &mut ExtractorState)
    ensures
        final(state)@ == closed_variable(e@, old(state)@),
        old(state).wf() ==> final(state).wf(),
        final(state)@.diagnostics.len() >= old(state)@.diagnostics.len(),
        final(state)@.narrative.len() <= old(state)@.narrative.len(),
        final(state)@.narrative.len() + 1 >= old(state)@.narrative.len(),
        final(state)@.content == old(state)@.content,
        old(state)@.recorded_since(final(state)@),
{
    let (tp, df) = take_declared(state);
    if state.scope_is(ScopeKind::Variable) {
        state.pop_scope();
        let first = store(state, tp);
        let second = store(state, df);
        state.add_element(e, None, first, second);
    } else {
        state.add_error(SHTMLError::NotInNarrative);
    }
}

/// The state after a notation closed: terms are read again, and the
/// notation is recorded with its components, which are kept aside.
pub open spec fn closed_notation(e: ElementView, s: StateView) -> StateView {
    if frame_kind(s) == FrameKind::Notation {
        let f = s.frames.last();
        kept_with(
            StateView { in_notation: false, ..s.without_frame() },
            e,
            ResourceView::Notation { op: f->op, comps: f->comps },
        )
    } else {
        s.with_error(ErrorView::NotInNarrative)
    }
}

/// Closes a notation.
pub fn close_notation(e: OpenSHTMLElement, state: &mut ExtractorState)
    ensures
        final(state)@ == closed_notation(e@, old(state)@),
        old(state).wf() ==> final(state).wf(),
        final(state)@.diagnostics.len() >= old(state)@.diagnostics.len(),
        final(state)@.narrative.len() == old(state)@.narrative.len(),
        final(state)@.content == old(state)@.content,
        old(state)@.recorded_since(final(state)@),
{
    match take_frame(state, FrameKind::Notation) {
        Some(Frame::Notation { op, comps }) => {
            state.set_in_notation(false);
            keep_with(state, e, Resource::Notation { op, comps });
        },
        _ => {
            state.add_error(SHTMLError::NotInNarrative);
        },
    }
}

/// The state after an element closed that is recorded in the innermost
/// content scope and relates that scope to `uri`; outside of any content
/// scope it is an error.
pub open spec fn closed_in_content(e: ElementView, predicate: Predicate, uri: UriView, first: Option<usize>, s: StateView) -> StateView {
    if s.content.len() > 0 {
        s.with_declaration(e, first, None).with_triple(relates(s, predicate, uri))
    } else {
        s.with_error(ErrorView::NotInContent)
    }
}

/// Records an element in the innermost content scope.
pub fn close_in_content(e: OpenSHTMLElement, predicate: Predicate, uri: &Uri, first: Option<usize>, state: &mut ExtractorState)
    ensures
        final(state)@ == closed_in_content(e@, predicate, uri@, first, old(state)@),
        old(state).wf() ==> final(state).wf(),
        final(state)@.diagnostics.len() >= old(state)@.diagnostics.len(),
        final(state)@.narrative.len() == old(state)@.narrative.len(),
        final(state)@.content == old(state)@.content,
        old(state)@.recorded_since(final(state)@),
{
    match state.current_content() {
        Some(m) => {
            state.add_declaration(e, first, None);
            state.add_triple(m.to_bytes(), predicate, uri.to_bytes());
        },
        None => {
            state.add_error(SHTMLError::NotInContent);
        },
    }
}

/// The state after an assignment closed: the term that the complex term
/// under construction has received is kept aside and the assignment is
/// recorded in the innermost content scope.
pub open spec fn closed_assign(e: ElementView, uri: UriView, s: StateView) -> StateView {
    if frame_kind(s) == FrameKind::Complex {
        let s0 = s.without_frame();
        match s.frames.last()->term {
            Some(t) => closed_in_content(
                e,
                Predicate::Defines,
                uri,
                Some(s0.resources.len() as usize),
                s0.with_resource(ResourceView::Term(t)),
            ),
            None => s0.with_error(ErrorView::MissingTermForComplex(VarOrSymView::S(uri))),
        }
    } else {
        s.with_error(ErrorView::MissingTermForComplex(VarOrSymView::S(uri)))
    }
}

/// Closes an assignment.
pub fn close_assign(e: OpenSHTMLElement, uri: &Uri, state: &mut ExtractorState)
    ensures
        final(state)@ == closed_assign(e@, uri@, old(state)@),
        old(state).wf() ==> final(state).wf(),
        final(state)@.diagnostics.len() >= old(state)@.diagnostics.len(),
        final(state)@.narrative.len() == old(state)@.narrative.len(),
        final(state)@.content == old(state)@.content,
        old(state)@.recorded_since(final(state)@),
{
    match take_frame(state, FrameKind::Complex) {
        Some(Frame::Complex { term: Some(t) }) => {
            let id = state.add_resource(Resource::Term(t));
            close_in_content(e, Predicate::Defines, uri, Some(id), state);
        },
        _ => {
            state.add_error(SHTMLError::MissingTermForComplex(VarOrSym::S(uri.copy())));
        },
    }
}

/// The state after the application of a named rule closed: its arguments
/// are kept aside and it is recorded in the innermost content scope.
pub open spec fn closed_rule(e: ElementView, s: StateView) -> StateView {
    if frame_kind(s) == FrameKind::Args {
        let s0 = s.without_frame();
        if s0.content.len() > 0 {
            s0.with_resource(ResourceView::Term(s.frames.last()->args)).with_declaration(
                e,
                Some(s0.resources.len() as usize),
                None,
            )
        } else {
            s0.with_error(ErrorView::NotInContent)
        }
    } else {
        s.with_error(ErrorView::NotInContent)
    }
}

/// Closes the application of a named rule.
pub fn close_rule(e: OpenSHTMLElement, state: &mut ExtractorState)
    ensures
        final(state)@ == closed_rule(e@, old(state)@),
        old(state).wf() ==> final(state).wf(),
        final(state)@.diagnostics.len() >= old(state)@.diagnostics.len(),
        final(state)@.narrative.len() == old(state)@.narrative.len(),
        final(state)@.content == old(state)@.content,
        old(state)@.recorded_since(final(state)@),
{
    match take_frame(state, FrameKind::Args) {
        Some(Frame::Args { args, .. }) => {
            if state.content_depth() > 0 {
                let id = state.add_resource(Resource::Term(args));
                state.add_declaration(e, Some(id), None);
            } else {
                state.add_error(SHTMLError::NotInContent);
            }
        },
        _ => {
            state.add_error(SHTMLError::NotInContent);
        },
    }
}

/// The outcome in which the element is resolved and the other elements of the node are untouched.
pub open spec fn resolved(s: StateView, rest: Seq<ElementView>) -> Closing {
    Closing { state: s, rest, pending: None }
}

/// The state after `e` was recorded in the narrative at the cursor.
pub open spec fn recorded(e: ElementView, s: StateView) -> StateView {
    s.with_element(e, None, None, None)
}

/// What finishing the element `e` leaves behind, where `rest` are the
/// elements of the node that are still pending, `s` is the state with the
/// cursor on the node, and `text` is the markup of the node's content.
#[verifier::opaque]
pub open spec fn closed_element(e: ElementView, rest: Seq<ElementView>, s: StateView, text: Seq<u8>) -> Closing {
    match e {
        ElementView::Module { .. } => resolved(closed_content(e, s), rest),
        ElementView::MathStructure { .. } => resolved(closed_content(e, s), rest),
        ElementView::Morphism { .. } => resolved(closed_content(e, s), rest),
        ElementView::Section { .. } => resolved(
            closed_narrative(e, ScopeKind::Section, ErrorView::NotInNarrative, s),
            rest,
        ),
        ElementView::Paragraph { .. } => resolved(
            closed_narrative(e, ScopeKind::Paragraph, ErrorView::NotInParagraph, s),
            rest,
        ),
        ElementView::Exercise { .. } => resolved(
            closed_narrative(e, ScopeKind::Exercise, ErrorView::NotInExercise, s),
            rest,
        ),
        ElementView::Symdecl { uri, .. } => resolved(closed_symbol(e, uri, s), rest),
        ElementView::Vardecl { .. } => resolved(closed_variable(e, s), rest),
        ElementView::Notation { .. } => resolved(closed_notation(e, s), rest),
        ElementView::NotationOpComp => resolved(
            match s.with_component(s.cursor, true) {
                Some(s1) => s1,
                None => s,
            },
            rest,
        ),
        ElementView::NotationComp | ElementView::ArgSep | ElementView::ArgMap | ElementView::ArgMapSep => resolved(
            match s.with_component(s.cursor, false) {
                Some(s1) => s1,
                None => s,
            },
            rest,
        ),
        ElementView::Arg(_) | ElementView::HeadTerm | ElementView::Type | ElementView::Conclusion { .. } | ElementView::Definiens { .. } => {
            let (s1, rest1, t) = found_term(rest, s);
            resolved(consumed(e, t, s1), rest1)
        },
        ElementView::OpenTerm { term, is_top } => {
            let (s1, t) = finished(term, s);
            if is_top {
                resolved(kept_with(StateView { in_term: false, ..s1 }, e, ResourceView::Term(t)), rest)
            } else {
                handed(t, rest, s1)
            }
        },
        ElementView::ClosedTerm(t) => handed(t, rest, s),
        ElementView::Assign(uri) => resolved(closed_assign(e, uri, s), rest),
        ElementView::MMTRule(_) => resolved(closed_rule(e, s), rest),
        ElementView::ImportModule(uri) => resolved(
            closed_in_content(e, Predicate::Imports, uri, None, s),
            rest,
        ),
        ElementView::UseModule(_) => resolved(recorded(e, s), rest),
        ElementView::SetSectionLevel(_) => resolved(recorded(e, s), rest),
        ElementView::Definiendum(_) => resolved(recorded(e, s), rest),
        ElementView::Inputref { .. } => resolved(recorded(e, s), rest),
        ElementView::Title => resolved(
            match s.with_title(s.cursor) {
                Some(s1) => s1,
                None => s.with_error(ErrorView::NotInNarrative),
            },
            rest,
        ),
        ElementView::Doctitle => resolved(StateView { title: Some(text), ..s }, rest),
        _ => resolved(s, rest),
    }
}

/// Finishing an element never leaves more elements pending on the node.
pub proof fn lemma_closed_rest(e: ElementView, rest: Seq<ElementView>, s: StateView, text: Seq<u8>)
    ensures
        closed_element(e, rest, s, text).rest.len() <= rest.len(),
{
    reveal(closed_element);
}

/// Finishes one element of a closing node.
#[verifier::rlimit(100)]
#[verifier::spinoff_prover]
pub fn close_element(e: OpenSHTMLElement, rest: &mut SHTMLElements, state: &mut ExtractorState, text: &[u8]) -> (pending:
    Option<OpenSHTMLElement>)
    ensures
        (Closing { state: final(state)@, rest: final(rest)@, pending: opt_element(pending) })
            == closed_element(e@, old(rest)@, old(state)@, text@),
        old(state).wf() ==> final(state).wf(),
        final(state)@.diagnostics.len() >= old(state)@.diagnostics.len(),
        final(state)@.narrative.len() <= old(state)@.narrative.len(),
        final(state)@.narrative.len() + scope_of(Some(e@)) >= old(state)@.narrative.len(),
        final(state)@.content.len() <= old(state)@.content.len(),
        final(state)@.content.len() + content_of(Some(e@)) >= old(state)@.content.len(),
        scopes_in(final(rest)@) == scopes_in(old(rest)@),
        contents_in(final(rest)@) == contents_in(old(rest)@),
        scope_of(opt_element(pending)) == 0,
        content_of(opt_element(pending)) == 0,
        old(state)@.recorded_since(final(state)@),
{
    proof {
        reveal(closed_element);
    }
    match e {
        OpenSHTMLElement::Module { .. } => {
            close_content(e, state);
            None
        },
        OpenSHTMLElement::MathStructure { .. } => {
            close_content(e, state);
            None
        },
        OpenSHTMLElement::Morphism { .. } => {
            close_content(e, state);
            None
        },
        OpenSHTMLElement::Section { .. } => {
            close_narrative(e, ScopeKind::Section, SHTMLError::NotInNarrative, state);
            None
        },
        OpenSHTMLElement::Paragraph { .. } => {
            close_narrative(e, ScopeKind::Paragraph, SHTMLError::NotInParagraph, state);
            None
        },
        OpenSHTMLElement::Exercise { .. } => {
            close_narrative(e, ScopeKind::Exercise, SHTMLError::NotInExercise, state);
            None
        },
        OpenSHTMLElement::Symdecl { uri, arity, macroname, role, assoctype, reordering } => {
            let u = uri.copy();
            close_symbol(
                OpenSHTMLElement::Symdecl { uri, arity, macroname, role, assoctype, reordering },
                &u,
                state,
            );
            None
        },
        OpenSHTMLElement::Vardecl { .. } => {
            close_variable(e, state);
            None
        },
        OpenSHTMLElement::Notation { .. } => {
            close_notation(e, state);
            None
        },
        OpenSHTMLElement::NotationOpComp => {
            let c = state.cursor();
            state.add_component(c, true);
            None
        },
        OpenSHTMLElement::NotationComp | OpenSHTMLElement::ArgSep | OpenSHTMLElement::ArgMap | OpenSHTMLElement::ArgMapSep => {
            let c = state.cursor();
            state.add_component(c, false);
            None
        },
        OpenSHTMLElement::Arg(_) | OpenSHTMLElement::HeadTerm | OpenSHTMLElement::Type | OpenSHTMLElement::Conclusion { .. } | OpenSHTMLElement::Definiens { .. } => {
            let t = find_term(rest, state);
            consume(e, t, state);
            None
        },
        OpenSHTMLElement::OpenTerm { term, is_top } => {
            let t = finish_term(&term, state);
            if is_top {
                state.set_in_term(false);
                keep_with(state, OpenSHTMLElement::OpenTerm { term, is_top }, Resource::Term(t));
                None
            } else {
                hand(t, rest, state)
            }
        },
        OpenSHTMLElement::ClosedTerm(t) => hand(t, rest, state),
        OpenSHTMLElement::Assign(uri) => {
            let u = uri.copy();
            close_assign(OpenSHTMLElement::Assign(uri), &u, state);
            None
        },
        OpenSHTMLElement::MMTRule(_) => {
            close_rule(e, state);
            None
        },
        OpenSHTMLElement::ImportModule(uri) => {
            let u = uri.copy();
            close_in_content(OpenSHTMLElement::ImportModule(uri), Predicate::Imports, &u, None, state);
            None
        },
        OpenSHTMLElement::UseModule(_) => {
            state.add_element(e, None, None, None);
            None
        },
        OpenSHTMLElement::SetSectionLevel(_) => {
            state.add_element(e, None, None, None);
            None
        },
        OpenSHTMLElement::Definiendum(_) => {
            state.add_element(e, None, None, None);
            None
        },
        OpenSHTMLElement::Inputref { .. } => {
            state.add_element(e, None, None, None);
            None
        },
        OpenSHTMLElement::Title => {
            let c = state.cursor();
            if !state.set_title(c) {
                state.add_error(SHTMLError::NotInNarrative);
            }
            None
        },
        OpenSHTMLElement::Doctitle => {
            state.set_document_title(copy_bytes(text));
            None
        },
        _ => None,
    }
}

/// What closing a node leaves behind: the state, and the elements that are
/// handed to the parent node, in the order in which they were handed on.
/// The elements of the node are finished from the last to the first.
pub open spec fn closed_all(elems: Seq<ElementView>, s: StateView, text: Seq<u8>, up: Seq<ElementView>) -> (
    StateView,
    Seq<ElementView>,
)
    decreases elems.len(),
{
    if elems.len() == 0 {
        (s, up)
    } else {
        let c = closed_element(elems.last(), elems.drop_last(), s, text);
        proof {
            lemma_closed_rest(elems.last(), elems.drop_last(), s, text);
        }
        closed_all(
            c.rest,
            c.state,
            text,
            match c.pending {
                Some(p) => up.push(p),
                None => up,
            },
        )
    }
}

impl SHTMLElements {
    /// Finishes the pending elements of a closing node, the most recently
    /// opened first, and leaves in their place those that are handed to the
    /// parent node.
    pub fn close(&mut self, state: &mut ExtractorState, text: &[u8])
        requires
            old(state).wf(),
        ensures
            final(state).wf(),
            (final(state)@, final(self)@) == closed_all(
                old(self)@,
                old(state)@,
                text@,
                Seq::<ElementView>::empty(),
            ),
            final(state)@.diagnostics.len() >= old(state)@.diagnostics.len(),
            final(state)@.narrative.len() <= old(state)@.narrative.len(),
            final(state)@.narrative.len() + scopes_in(old(self)@) >= old(state)@.narrative.len(),
            final(state)@.content.len() <= old(state)@.content.len(),
            final(state)@.content.len() + contents_in(old(self)@) >= old(state)@.content.len(),
            scopes_in(final(self)@) == 0,
            contents_in(final(self)@) == 0,
            old(state)@.recorded_since(final(state)@),
    {
        let mut ret = SHTMLElements::new();
        proof {
            lemma_scopes_in(self@);
        }
        loop
            invariant
                state.wf(),
                state@.diagnostics.len() >= old(state)@.diagnostics.len(),
                old(state)@.recorded_since(state@),
                state@.narrative.len() <= old(state)@.narrative.len(),
                state@.narrative.len() + scopes_in(old(self)@) - scopes_in(self@)
                    >= old(state)@.narrative.len(),
                state@.content.len() <= old(state)@.content.len(),
                state@.content.len() + contents_in(old(self)@) - contents_in(self@)
                    >= old(state)@.content.len(),
                scopes_in(self@) >= 0,
                contents_in(self@) >= 0,
                scopes_in(ret@) == 0,
                contents_in(ret@) == 0,
                closed_all(self@, state@, text@, ret@) == closed_all(
                    old(self)@,
                    old(state)@,
                    text@,
                    Seq::<ElementView>::empty(),
                ),
            ensures
                self@.len() == 0,
            decreases self@.len(),
        {
            let ghost before = self@;
            let e = match self.pop() {
                Some(e) => e,
                None => { break ; },
            };
            proof {
                lemma_closed_rest(e@, before.drop_last(), state@, text@);
                lemma_scopes_in(before.drop_last());
                assert(scopes_in(before) == scopes_in(before.drop_last()) + scope_of(Some(e@)));
                assert(contents_in(before) == contents_in(before.drop_last()) + content_of(Some(e@)));
            }
            let ghost kept = ret@;
            match close_element(e, self, state, text) {
                Some(r) => {
                    ret.push(r);
                    assert(ret@.drop_last() =~= kept);
                },
                None => {},
            }
        }
        *self = ret;
    }
}

/// Nesting. An argument that closes where no application is under
/// construction, and that has no term of its own, is not resolved: the
/// error is recorded, nothing is handed on, and no argument is added anywhere.
pub proof fn lemma_arg_needs_term(a: crate::terms::OpenArg, rest: Seq<ElementView>, s: StateView, text: Seq<u8>)
    requires
        frame_kind(s) != FrameKind::Args,
        rest.len() == 0 || !(rest.last() is OpenTerm),
    ensures
        closed_element(ElementView::Arg(a), rest, s, text) == resolved(
            s.with_error(ErrorView::NotInContent),
            rest,
        ),
{
    reveal(closed_element);
}

} // verus!
