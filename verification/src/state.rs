//! The state of one extraction: the open scopes, the terms under
//! construction, and everything that has been found so far.

use vstd::prelude::*;
use crate::errors::{Diagnostic, DiagnosticLevel, DiagnosticView, ErrorView, SHTMLError, diagnostics_view};
use crate::open::{opt_uri, uris_view, ElementView, OpenSHTMLElement};
use crate::resolve::{
    document_of, element_of, module_of, resolve_document, resolve_element, resolve_module,
    resolve_symbol, resolve_symbol_as_module, symbol_as_module_of, symbol_of, ArchiveSeq,
    ArchiveTable,
};
use crate::sections::DocumentRange;
use crate::terms::{OpenArg, Term, TermNode, TermNodeView, TermSeq};
use crate::text::{copy_bytes, digits, lit, opt_bytes, push_bytes, push_decimal, push_str};
use crate::uris::{Language, Uri, UriKind, UriView};

verus! {

/// What a narrative scope belongs to.
#[derive(Copy, Clone, Debug, PartialEq, Eq, Structural)]
pub enum ScopeKind {
    Document,
    Module,
    Section,
    Paragraph,
    Exercise,
    Variable,
}

/// An open narrative scope.
#[derive(Clone, Debug, PartialEq, Eq)]
pub struct NarrativeScope {
    pub kind: ScopeKind,
    pub uri: Option<Uri>,
    pub title: Option<DocumentRange>,
    pub fors: Vec<Uri>,
}

/// An open narrative scope as mathematical data.
pub struct ScopeView {
    pub kind: ScopeKind,
    pub uri: Option<UriView>,
    pub title: Option<DocumentRange>,
    pub fors: Seq<UriView>,
}

impl View for NarrativeScope {
    type V = ScopeView;

    open spec fn view(&self) -> ScopeView {
        ScopeView { kind: self.kind, uri: opt_uri(self.uri), title: self.title, fors: uris_view(self.fors@) }
    }
}

/// The view of an optional term.
pub open spec fn opt_term(o: Option<Term>) -> Option<TermSeq> {
    match o {
        Some(t) => Some(t@),
        None => None,
    }
}

/// What a term under construction is waiting for.
#[derive(Clone, Debug, PartialEq, Eq)]
pub enum Frame {
    /// A declaration, which may receive a type and a definiens.
    Decl { tp: Option<Term>, df: Option<Term> },
    /// An application, which receives arguments; they are kept one after the
    /// other, each behind its marker.
    Args { args: Term, count: usize },
    /// A complex term, which receives the term it stands for.
    Complex { term: Option<Term> },
    /// A notation, which receives the ranges of its components.
    Notation { op: Option<DocumentRange>, comps: Vec<DocumentRange> },
}

/// A frame as mathematical data.
pub enum FrameView {
    Decl { tp: Option<TermSeq>, df: Option<TermSeq> },
    Args { args: TermSeq, count: usize },
    Complex { term: Option<TermSeq> },
    Notation { op: Option<DocumentRange>, comps: Seq<DocumentRange> },
}

impl View for Frame {
    type V = FrameView;

    open spec fn view(&self) -> FrameView {
        match self {
            Frame::Decl { tp, df } => FrameView::Decl { tp: opt_term(*tp), df: opt_term(*df) },
            Frame::Args { args, count } => FrameView::Args { args: args@, count: *count },
            Frame::Complex { term } => FrameView::Complex { term: opt_term(*term) },
            Frame::Notation { op, comps } => FrameView::Notation { op: *op, comps: comps@ },
        }
    }
}

/// A large finished value that is kept aside and referred to by its position.
#[derive(Clone, Debug, PartialEq, Eq)]
pub enum Resource {
    Term(Term),
    Notation { op: Option<DocumentRange>, comps: Vec<DocumentRange> },
}

/// A resource as mathematical data.
pub enum ResourceView {
    Term(TermSeq),
    Notation { op: Option<DocumentRange>, comps: Seq<DocumentRange> },
}

impl View for Resource {
    type V = ResourceView;

    open spec fn view(&self) -> ResourceView {
        match self {
            Resource::Term(t) => ResourceView::Term(t@),
            Resource::Notation { op, comps } => ResourceView::Notation { op: *op, comps: comps@ },
        }
    }
}

/// A finished element of the narrative or of the content.
///
/// The records of a document are listed in the order in which the elements
/// were finished, children before their parent; `depth` is the number of
/// scopes that were open around the element.
#[derive(Clone, Debug, PartialEq, Eq)]
pub struct Record {
    pub depth: usize,
    pub range: DocumentRange,
    pub title: Option<DocumentRange>,
    pub element: OpenSHTMLElement,
    /// The resource of the element: its term, its notation, or its type.
    pub first: Option<usize>,
    /// The second resource of the element: its definiens.
    pub second: Option<usize>,
}

/// A record as mathematical data.
pub struct RecordView {
    pub depth: usize,
    pub range: DocumentRange,
    pub title: Option<DocumentRange>,
    pub element: ElementView,
    pub first: Option<usize>,
    pub second: Option<usize>,
}

impl View for Record {
    type V = RecordView;

    open spec fn view(&self) -> RecordView {
        RecordView {
            depth: self.depth,
            range: self.range,
            title: self.title,
            element: self.element@,
            first: self.first,
            second: self.second,
        }
    }
}

/// The relations of the ontology that the extraction states.
#[derive(Copy, Clone, Debug, PartialEq, Eq, Structural)]
pub enum Predicate {
    /// The subject is written in the language that the object names.
    Language,
    /// The subject is a document.
    IsDocument,
    /// The subject contains the object.
    Contains,
    /// The subject declares the object.
    Declares,
    /// The subject defines the object.
    Defines,
    /// The subject imports the object.
    Imports,
}

/// A fact of the ontology.
#[derive(Clone, Debug, PartialEq, Eq)]
pub struct Triple {
    pub subject: Vec<u8>,
    pub predicate: Predicate,
    pub object: Vec<u8>,
}

/// A fact as mathematical data.
pub struct TripleView {
    pub subject: Seq<u8>,
    pub predicate: Predicate,
    pub object: Seq<u8>,
}

impl View for Triple {
    type V = TripleView;

    open spec fn view(&self) -> TripleView {
        TripleView { subject: self.subject@, predicate: self.predicate, object: self.object@ }
    }
}

/// The scopes that a vector holds.
pub open spec fn scopes_view(v: Seq<NarrativeScope>) -> Seq<ScopeView> {
    Seq::new(v.len(), |i: int| v[i]@)
}

/// The frames that a vector holds.
pub open spec fn frames_view(v: Seq<Frame>) -> Seq<FrameView> {
    Seq::new(v.len(), |i: int| v[i]@)
}

/// The records that a vector holds.
pub open spec fn records_view(v: Seq<Record>) -> Seq<RecordView> {
    Seq::new(v.len(), |i: int| v[i]@)
}

/// The resources that a vector holds.
pub open spec fn resources_view(v: Seq<Resource>) -> Seq<ResourceView> {
    Seq::new(v.len(), |i: int| v[i]@)
}

/// The facts that a vector holds.
pub open spec fn triples_view(v: Seq<Triple>) -> Seq<TripleView> {
    Seq::new(v.len(), |i: int| v[i]@)
}

/// The state of one extraction.
pub struct ExtractorState {
    document: Uri,
    archives: ArchiveTable,
    content: Vec<Uri>,
    narrative: Vec<NarrativeScope>,
    frames: Vec<Frame>,
    in_term: bool,
    in_notation: bool,
    counter: usize,
    notations: Vec<Vec<u8>>,
    diagnostics: Vec<Diagnostic>,
    notices: Vec<Diagnostic>,
    elements: Vec<Record>,
    declarations: Vec<Record>,
    resources: Vec<Resource>,
    triples: Vec<Triple>,
    title: Option<Vec<u8>>,
    cursor: DocumentRange,
}

/// The state as mathematical data.
pub struct StateView {
    pub document: UriView,
    pub archives: ArchiveSeq,
    /// The open content scopes, the innermost last.
    pub content: Seq<UriView>,
    /// The open narrative scopes, the innermost last; the first is the document's.
    pub narrative: Seq<ScopeView>,
    /// The terms under construction, the innermost last.
    pub frames: Seq<FrameView>,
    pub in_term: bool,
    pub in_notation: bool,
    /// The number that the next generated identifier ends in.
    pub counter: usize,
    /// The identifiers of the notations opened so far, in order.
    pub notations: Seq<Seq<u8>>,
    /// The diagnostics that make the extraction fail.
    pub diagnostics: Seq<DiagnosticView>,
    /// Remarks that do not make the extraction fail.
    pub notices: Seq<DiagnosticView>,
    pub elements: Seq<RecordView>,
    pub declarations: Seq<RecordView>,
    pub resources: Seq<ResourceView>,
    pub triples: Seq<TripleView>,
    pub title: Option<Seq<u8>>,
    /// The range of the node that is being worked on.
    pub cursor: DocumentRange,
}

impl View for ExtractorState {
    type V = StateView;

    closed spec fn view(&self) -> StateView {
        StateView {
            document: self.document@,
            archives: self.archives@,
            content: uris_view(self.content@),
            narrative: scopes_view(self.narrative@),
            frames: frames_view(self.frames@),
            in_term: self.in_term,
            in_notation: self.in_notation,
            counter: self.counter,
            notations: crate::text::views(self.notations@),
            diagnostics: diagnostics_view(self.diagnostics@),
            notices: diagnostics_view(self.notices@),
            elements: records_view(self.elements@),
            declarations: records_view(self.declarations@),
            resources: resources_view(self.resources@),
            triples: triples_view(self.triples@),
            title: opt_bytes(self.title),
            cursor: self.cursor,
        }
    }
}

/// The facts that hold of every document: its language, that it is a
/// document, and that its archive contains it.
pub open spec fn document_triples(document: UriView) -> Seq<TripleView> {
    seq![
        TripleView {
            subject: document.text(),
            predicate: Predicate::Language,
            object: document.language.code_bytes(),
        },
        TripleView { subject: document.text(), predicate: Predicate::IsDocument, object: Seq::<u8>::empty() },
        TripleView {
            subject: document.base + lit("?a=") + document.archive,
            predicate: Predicate::Contains,
            object: document.text(),
        },
    ]
}

/// The index of the innermost of the scopes up to `from` that has an identifier.
pub open spec fn named_scope(scopes: Seq<ScopeView>, from: int) -> int
    decreases from,
{
    if from <= 0 {
        0
    } else if scopes[from].uri is Some {
        from
    } else {
        named_scope(scopes, from - 1)
    }
}

/// The identifier of the innermost scope that has one.
pub open spec fn scope_uri(scopes: Seq<ScopeView>) -> UriView {
    scopes[named_scope(scopes, scopes.len() - 1)].uri.unwrap()
}

/// The identifier of the narrative element named `name` under `parent`.
pub open spec fn child_of(parent: UriView, name: Seq<u8>) -> UriView {
    if parent.kind == UriKind::Element {
        UriView { item: parent.item + seq![0x2fu8] + name, ..parent }
    } else {
        UriView { kind: UriKind::Element, item: name, ..parent }
    }
}

/// The index of the innermost of the scopes up to `from` that is of kind `kind`, or `-1`.
pub open spec fn innermost_scope(scopes: Seq<ScopeView>, kind: ScopeKind, from: int) -> int
    decreases from + 1,
{
    if from < 0 || from >= scopes.len() {
        -1
    } else if scopes[from].kind == kind {
        from
    } else {
        innermost_scope(scopes, kind, from - 1)
    }
}

impl StateView {
    /// The state at the start of the extraction of `document`.
    pub open spec fn initial(document: UriView, archives: ArchiveSeq) -> StateView {
        StateView {
            document,
            archives,
            content: Seq::<UriView>::empty(),
            narrative: seq![
                ScopeView {
                    kind: ScopeKind::Document,
                    uri: Some(document),
                    title: None,
                    fors: Seq::<UriView>::empty(),
                },
            ],
            frames: Seq::<FrameView>::empty(),
            in_term: false,
            in_notation: false,
            counter: 0,
            notations: Seq::<Seq<u8>>::empty(),
            diagnostics: Seq::<DiagnosticView>::empty(),
            notices: Seq::<DiagnosticView>::empty(),
            elements: Seq::<RecordView>::empty(),
            declarations: Seq::<RecordView>::empty(),
            resources: Seq::<ResourceView>::empty(),
            triples: document_triples(document),
            title: None,
            cursor: DocumentRange { start: 0, end: 0 },
        }
    }

    /// The invariant of the state: the document's narrative scope is always
    /// open, and it is the only one of its kind.
    pub open spec fn wf(self) -> bool {
        &&& self.narrative.len() >= 1
        &&& self.narrative[0].kind == ScopeKind::Document
        &&& self.narrative[0].uri == Some(self.document)
        &&& forall|i: int| 1 <= i < self.narrative.len() ==> (#[trigger] self.narrative[i]).kind != ScopeKind::Document
    }

    /// The state with one more error at the cursor.
    pub open spec fn with_error(self, e: ErrorView) -> StateView {
        StateView {
            diagnostics: self.diagnostics.push(
                DiagnosticView { level: DiagnosticLevel::Error, message: e.message(), range: self.cursor },
            ),
            ..self
        }
    }

    /// The state with one more diagnostic at the cursor.
    pub open spec fn with_diagnostic(self, level: DiagnosticLevel, message: Seq<u8>) -> StateView {
        StateView {
            diagnostics: self.diagnostics.push(DiagnosticView { level, message, range: self.cursor }),
            ..self
        }
    }

    /// The state with one more remark at the cursor.
    pub open spec fn with_notice(self, level: DiagnosticLevel, message: Seq<u8>) -> StateView {
        StateView {
            notices: self.notices.push(DiagnosticView { level, message, range: self.cursor }),
            ..self
        }
    }

    /// The identifier of the innermost narrative scope that has one.
    pub open spec fn narrative_uri(self) -> UriView {
        scope_uri(self.narrative)
    }

    /// The identifier of the narrative element named `name` in the innermost
    /// narrative scope: directly under the document, or one step below the
    /// element that the scope belongs to.
    pub open spec fn child_uri(self, name: Seq<u8>) -> UriView {
        child_of(scope_uri(self.narrative), name)
    }

    /// The identifier that is generated next from `prefix`.
    pub open spec fn fresh_id(self, prefix: Seq<u8>) -> Seq<u8> {
        prefix + seq![0x5fu8] + digits(self.counter as nat)
    }

    /// The state after an identifier was generated.
    pub open spec fn after_id(self) -> StateView {
        StateView {
            counter: if self.counter < usize::MAX {
                (self.counter + 1) as usize
            } else {
                self.counter
            },
            ..self
        }
    }

    /// The state with one more open content scope.
    pub open spec fn with_content(self, uri: UriView) -> StateView {
        StateView { content: self.content.push(uri), ..self }
    }

    /// The state with one more open narrative scope.
    pub open spec fn with_narrative(self, kind: ScopeKind, uri: Option<UriView>, fors: Seq<UriView>) -> StateView {
        StateView { narrative: self.narrative.push(ScopeView { kind, uri, title: None, fors }), ..self }
    }

    /// The state with one more term under construction.
    pub open spec fn with_frame(self, f: FrameView) -> StateView {
        StateView { frames: self.frames.push(f), ..self }
    }

    /// The state after the notation `id` was begun.
    pub open spec fn with_notation(self, id: Seq<u8>) -> StateView {
        StateView {
            in_notation: true,
            notations: self.notations.push(id),
            ..self.with_frame(FrameView::Notation { op: None, comps: Seq::<DocumentRange>::empty() })
        }
    }

    /// The state with one more narrative record at the cursor.
    pub open spec fn with_element(self, element: ElementView, title: Option<DocumentRange>, first: Option<usize>, second: Option<usize>) -> StateView {
        StateView {
            elements: self.elements.push(
                RecordView {
                    depth: if self.narrative.len() > 0 {
                        (self.narrative.len() - 1) as usize
                    } else {
                        0
                    },
                    range: self.cursor,
                    title,
                    element,
                    first,
                    second,
                },
            ),
            ..self
        }
    }

    /// The state with one more content record at the cursor.
    pub open spec fn with_declaration(self, element: ElementView, first: Option<usize>, second: Option<usize>) -> StateView {
        StateView {
            declarations: self.declarations.push(
                RecordView {
                    depth: self.content.len() as usize,
                    range: self.cursor,
                    title: None,
                    element,
                    first,
                    second,
                },
            ),
            ..self
        }
    }

    /// The state with one more resource.
    pub open spec fn with_resource(self, r: ResourceView) -> StateView {
        StateView { resources: self.resources.push(r), ..self }
    }

    /// Whether the fact is already stated.
    pub open spec fn states(self, t: TripleView) -> bool {
        exists|i: int| 0 <= i < self.triples.len() && #[trigger] self.triples[i] == t
    }

    /// The state with the fact stated, once.
    pub open spec fn with_triple(self, t: TripleView) -> StateView {
        if self.states(t) {
            self
        } else {
            StateView { triples: self.triples.push(t), ..self }
        }
    }
}

impl StateView {
    /// The index of the innermost open narrative scope of kind `kind`, or `-1`.
    pub open spec fn innermost(self, kind: ScopeKind) -> int {
        innermost_scope(self.narrative, kind, self.narrative.len() - 1)
    }

    /// Whether a narrative scope of kind `kind` is open.
    pub open spec fn inside(self, kind: ScopeKind) -> bool {
        self.innermost(kind) >= 0
    }

    /// The state after a precondition or an objective of the current exercise
    /// was stated: recorded where an exercise is open, an error otherwise.
    pub open spec fn with_exercise_note(self, note: ElementView) -> StateView {
        if self.inside(ScopeKind::Exercise) {
            self.with_element(note, None, None, None)
        } else {
            self.with_error(ErrorView::NotInExercise)
        }
    }

    /// The state after `uri` was marked as defined here: the innermost open
    /// paragraph, if any, is about it too.
    pub open spec fn with_definiendum(self, uri: UriView) -> StateView {
        let i = self.innermost(ScopeKind::Paragraph);
        if i >= 0 {
            StateView {
                narrative: self.narrative.update(
                    i,
                    ScopeView { fors: self.narrative[i].fors.push(uri), ..self.narrative[i] },
                ),
                ..self
            }
        } else {
            self
        }
    }

    /// The state after the innermost term under construction, an application,
    /// received an argument; `None` where the innermost is no application.
    pub open spec fn with_arg(self, arg: OpenArg, term: TermSeq) -> Option<StateView> {
        if self.frames.len() > 0 && self.frames.last() is Args {
            let f = self.frames.last();
            Some(
                StateView {
                    frames: self.frames.update(
                        self.frames.len() - 1,
                        FrameView::Args {
                            args: f->args.push(TermNodeView::Argument(arg)) + term,
                            count: if f->count < usize::MAX {
                                (f->count + 1) as usize
                            } else {
                                f->count
                            },
                        },
                    ),
                    ..self
                },
            )
        } else {
            None
        }
    }

    /// The state after the innermost term under construction, a complex term,
    /// received the term it stands for; `None` where the innermost is none.
    pub open spec fn with_complex(self, term: TermSeq) -> Option<StateView> {
        if self.frames.len() > 0 && self.frames.last() is Complex {
            Some(
                StateView {
                    frames: self.frames.update(
                        self.frames.len() - 1,
                        FrameView::Complex { term: Some(term) },
                    ),
                    ..self
                },
            )
        } else {
            None
        }
    }

    /// The state after the innermost term under construction, a declaration,
    /// received its type (`definiens == false`) or its definiens; `None`
    /// where the innermost is no declaration.
    pub open spec fn with_part(self, term: TermSeq, definiens: bool) -> Option<StateView> {
        if self.frames.len() > 0 && self.frames.last() is Decl {
            let f = self.frames.last();
            Some(
                StateView {
                    frames: self.frames.update(
                        self.frames.len() - 1,
                        if definiens {
                            FrameView::Decl { tp: f->tp, df: Some(term) }
                        } else {
                            FrameView::Decl { tp: Some(term), df: f->df }
                        },
                    ),
                    ..self
                },
            )
        } else {
            None
        }
    }

    /// The state after the innermost term under construction, a notation,
    /// received a component (`op == false`) or its operator component; `None`
    /// where the innermost is no notation.
    pub open spec fn with_component(self, range: DocumentRange, op: bool) -> Option<StateView> {
        if self.frames.len() > 0 && self.frames.last() is Notation {
            let f = self.frames.last();
            Some(
                StateView {
                    frames: self.frames.update(
                        self.frames.len() - 1,
                        if op {
                            FrameView::Notation { op: Some(range), comps: f->comps }
                        } else {
                            FrameView::Notation { op: f->op, comps: f->comps.push(range) }
                        },
                    ),
                    ..self
                },
            )
        } else {
            None
        }
    }

    /// The state after the innermost narrative scope, which belongs to a
    /// section, a paragraph or an exercise, received its title; `None` where
    /// it belongs to none of these.
    pub open spec fn with_title(self, range: DocumentRange) -> Option<StateView> {
        let s = self.narrative.last();
        if self.narrative.len() > 0 && (s.kind == ScopeKind::Section || s.kind == ScopeKind::Paragraph
            || s.kind == ScopeKind::Exercise) {
            Some(
                StateView {
                    narrative: self.narrative.update(
                        self.narrative.len() - 1,
                        ScopeView { title: Some(range), ..s },
                    ),
                    ..self
                },
            )
        } else {
            None
        }
    }

    /// What was recorded up to `self` is still on record in `later`, and
    /// every record made since stands at the cursor, which has not moved.
    pub open spec fn recorded_since(self, later: StateView) -> bool {
        &&& later.cursor == self.cursor
        &&& later.elements.len() >= self.elements.len()
        &&& later.declarations.len() >= self.declarations.len()
        &&& forall|i: int|
            0 <= i < later.elements.len() ==> if i < self.elements.len() {
                (#[trigger] later.elements[i]) == self.elements[i]
            } else {
                later.elements[i].range == self.cursor
            }
        &&& forall|i: int|
            0 <= i < later.declarations.len() ==> if i < self.declarations.len() {
                (#[trigger] later.declarations[i]) == self.declarations[i]
            } else {
                later.declarations[i].range == self.cursor
            }
    }

    /// Whether every scope that was opened has been closed.
    pub open spec fn balanced(self) -> bool {
        self.content.len() == 0 && self.narrative.len() == 1 && self.frames.len() == 0
    }
}

impl ExtractorState {
    /// The invariant of the state.
    pub open spec fn wf(&self) -> bool {
        self@.wf()
    }

    /// The state at the start of the extraction of `document`.
    pub fn new(document: Uri, archives: ArchiveTable) -> (r: ExtractorState)
        ensures
            r@ == StateView::initial(document@, archives@),
            r.wf(),
    {
        let mut narrative: Vec<NarrativeScope> = Vec::new();
        narrative.push(
            NarrativeScope { kind: ScopeKind::Document, uri: Some(document.copy()), title: None, fors: Vec::new() },
        );
        let text = document.to_bytes();
        let mut archive = copy_bytes(document.base.as_slice());
        push_str(&mut archive, "?a=");
        push_bytes(&mut archive, document.archive.as_slice());
        let mut triples: Vec<Triple> = Vec::new();
        triples.push(
            Triple {
                subject: copy_bytes(text.as_slice()),
                predicate: Predicate::Language,
                object: crate::text::bytes_of(document.language.code()),
            },
        );
        triples.push(
            Triple { subject: copy_bytes(text.as_slice()), predicate: Predicate::IsDocument, object: Vec::new() },
        );
        triples.push(Triple { subject: archive, predicate: Predicate::Contains, object: text });
        let r = ExtractorState {
            document,
            archives,
            content: Vec::new(),
            narrative,
            frames: Vec::new(),
            in_term: false,
            in_notation: false,
            counter: 0,
            notations: Vec::new(),
            diagnostics: Vec::new(),
            notices: Vec::new(),
            elements: Vec::new(),
            declarations: Vec::new(),
            resources: Vec::new(),
            triples,
            title: None,
            cursor: DocumentRange { start: 0, end: 0 },
        };
        proof {
            let g = StateView::initial(document@, archives@);
            assert(r@.content =~= g.content);
            assert(r@.narrative[0].fors =~= Seq::<UriView>::empty());
            assert(r@.narrative =~= g.narrative);
            assert(r@.frames =~= g.frames);
            assert(r@.notations =~= g.notations);
            assert(r@.diagnostics =~= g.diagnostics);
            assert(r@.notices =~= g.notices);
            assert(r@.elements =~= g.elements);
            assert(r@.declarations =~= g.declarations);
            assert(r@.resources =~= g.resources);
            assert(r@.triples[1].object =~= Seq::<u8>::empty());
            assert(r@.triples =~= g.triples);
        }
        r
    }

    /// The identifier of the document.
    pub fn document_uri(&self) -> (r: &Uri)
        ensures
            r@ == self@.document,
    {
        &self.document
    }

    /// Whether a term is being read.
    pub fn in_term(&self) -> (r: bool)
        ensures
            r == self@.in_term,
    {
        self.in_term
    }

    /// Says whether a term is being read.
    pub fn set_in_term(&mut self, value: bool)
        ensures
            final(self)@ == (StateView { in_term: value, ..old(self)@ }),
    {
        self.in_term = value;
    }

    /// Whether a notation is being read.
    pub fn in_notation(&self) -> (r: bool)
        ensures
            r == self@.in_notation,
    {
        self.in_notation
    }

    /// Says whether a notation is being read.
    pub fn set_in_notation(&mut self, value: bool)
        ensures
            final(self)@ == (StateView { in_notation: value, ..old(self)@ }),
    {
        self.in_notation = value;
    }

    /// The range of the node that is being worked on.
    pub fn cursor(&self) -> (r: DocumentRange)
        ensures
            r == self@.cursor,
    {
        self.cursor
    }

    /// Moves the cursor to the node that is worked on next.
    pub fn set_cursor(&mut self, range: DocumentRange)
        ensures
            final(self)@ == (StateView { cursor: range, ..old(self)@ }),
    {
        self.cursor = range;
    }

    /// Whether any diagnostic has been recorded.
    pub fn has_diagnostics(&self) -> (r: bool)
        ensures
            r == (self@.diagnostics.len() > 0),
    {
        self.diagnostics.len() > 0
    }

    /// The diagnostics recorded so far.
    pub fn diagnostics(&self) -> (r: &Vec<Diagnostic>)
        ensures
            diagnostics_view(r@) == self@.diagnostics,
    {
        &self.diagnostics
    }

    /// The remarks recorded so far.
    pub fn notices(&self) -> (r: &Vec<Diagnostic>)
        ensures
            diagnostics_view(r@) == self@.notices,
    {
        &self.notices
    }

    /// The narrative records so far.
    pub fn elements(&self) -> (r: &Vec<Record>)
        ensures
            records_view(r@) == self@.elements,
    {
        &self.elements
    }

    /// The content records so far.
    pub fn declarations(&self) -> (r: &Vec<Record>)
        ensures
            records_view(r@) == self@.declarations,
    {
        &self.declarations
    }

    /// The resources so far.
    pub fn resources(&self) -> (r: &Vec<Resource>)
        ensures
            resources_view(r@) == self@.resources,
    {
        &self.resources
    }

    /// The facts stated so far.
    pub fn triples(&self) -> (r: &Vec<Triple>)
        ensures
            triples_view(r@) == self@.triples,
    {
        &self.triples
    }

    /// Number of open content scopes.
    pub fn content_depth(&self) -> (r: usize)
        ensures
            r == self@.content.len(),
    {
        self.content.len()
    }

    /// Number of open narrative scopes, the document's included.
    pub fn narrative_depth(&self) -> (r: usize)
        ensures
            r == self@.narrative.len(),
    {
        self.narrative.len()
    }

    /// Number of terms under construction.
    pub fn frame_depth(&self) -> (r: usize)
        ensures
            r == self@.frames.len(),
    {
        self.frames.len()
    }

    /// Records an error at the cursor.
    pub fn add_error(&mut self, err: SHTMLError)
        ensures
            final(self)@ == old(self)@.with_error(err@),
    {
        let message = err.message();
        self.diagnostics.push(Diagnostic { level: DiagnosticLevel::Error, message, range: self.cursor });
        assert(self@.diagnostics =~= old(self)@.with_error(err@).diagnostics);
    }

    /// Records a diagnostic at the cursor.
    pub fn add_diagnostic(&mut self, level: DiagnosticLevel, message: Vec<u8>)
        ensures
            final(self)@ == old(self)@.with_diagnostic(level, message@),
    {
        self.diagnostics.push(Diagnostic { level, message, range: self.cursor });
        assert(self@.diagnostics =~= old(self)@.with_diagnostic(level, message@).diagnostics);
    }

    /// Records a remark at the cursor.
    pub fn add_notice(&mut self, level: DiagnosticLevel, message: Vec<u8>)
        ensures
            final(self)@ == old(self)@.with_notice(level, message@),
    {
        self.notices.push(Diagnostic { level, message, range: self.cursor });
        assert(self@.notices =~= old(self)@.with_notice(level, message@).notices);
    }

    /// The identifier of the innermost narrative scope that has one.
    pub fn get_narrative_uri(&self) -> (r: Uri)
        requires
            self.wf(),
        ensures
            r@ == self@.narrative_uri(),
    {
        let mut i: usize = self.narrative.len() - 1;
        while i > 0
            invariant
                self.wf(),
                i < self.narrative.len(),
                named_scope(self@.narrative, i as int) == named_scope(
                    self@.narrative,
                    self@.narrative.len() - 1,
                ),
            decreases i,
        {
            assert(self@.narrative[i as int] == self.narrative@[i as int]@);
            match &self.narrative[i].uri {
                Some(u) => {
                    return u.copy();
                },
                None => {},
            }
            i -= 1;
        }
        assert(self@.narrative[0] == self.narrative@[0]@);
        match &self.narrative[0].uri {
            Some(u) => u.copy(),
            None => self.document.copy(),
        }
    }

    /// The identifier of the narrative element named `name` in the innermost narrative scope.
    pub fn child_uri(&self, name: &[u8]) -> (r: Uri)
        requires
            self.wf(),
        ensures
            r@ == self@.child_uri(name@),
    {
        let mut parent = self.get_narrative_uri();
        match parent.kind {
            UriKind::Element => {
                parent.item.push(0x2fu8);
                push_bytes(&mut parent.item, name);
                assert(parent.item@ =~= self@.narrative_uri().item + seq![0x2fu8] + name@);
                parent
            },
            _ => {
                parent.kind = UriKind::Element;
                parent.item = copy_bytes(name);
                parent
            },
        }
    }

    /// Generates an identifier that begins with `prefix`.
    pub fn new_id(&mut self, prefix: &[u8]) -> (r: Vec<u8>)
        ensures
            r@ == old(self)@.fresh_id(prefix@),
            final(self)@ == old(self)@.after_id(),
    {
        let mut r = copy_bytes(prefix);
        r.push(0x5fu8);
        push_decimal(&mut r, self.counter);
        assert(r@ =~= old(self)@.fresh_id(prefix@));
        if self.counter < usize::MAX {
            self.counter = self.counter + 1;
        }
        r
    }

    /// Opens a content scope.
    pub fn open_content(&mut self, uri: Uri)
        ensures
            final(self)@ == old(self)@.with_content(uri@),
    {
        self.content.push(uri);
        assert(self@.content =~= old(self)@.content.push(uri@));
    }

    /// Opens a narrative scope.
    pub fn open_scope(&mut self, kind: ScopeKind, uri: Option<Uri>, fors: Vec<Uri>)
        requires
            kind != ScopeKind::Document,
        ensures
            final(self)@ == old(self)@.with_narrative(kind, opt_uri(uri), uris_view(fors@)),
            old(self).wf() ==> final(self).wf(),
    {
        self.narrative.push(NarrativeScope { kind, uri, title: None, fors });
        assert(self@.narrative =~= old(self)@.with_narrative(kind, opt_uri(uri), uris_view(fors@)).narrative);
    }

    /// Opens the narrative scope of a module, a structure or a morphism.
    pub fn open_narrative(&mut self, uri: Option<Uri>)
        ensures
            final(self)@ == old(self)@.with_narrative(ScopeKind::Module, opt_uri(uri), Seq::<UriView>::empty()),
            old(self).wf() ==> final(self).wf(),
    {
        let fors: Vec<Uri> = Vec::new();
        assert(uris_view(fors@) =~= Seq::<UriView>::empty());
        self.open_scope(ScopeKind::Module, uri, fors);
    }

    /// Opens the narrative scope of a section.
    pub fn open_section(&mut self, uri: Uri)
        ensures
            final(self)@ == old(self)@.with_narrative(ScopeKind::Section, Some(uri@), Seq::<UriView>::empty()),
            old(self).wf() ==> final(self).wf(),
    {
        let fors: Vec<Uri> = Vec::new();
        assert(uris_view(fors@) =~= Seq::<UriView>::empty());
        self.open_scope(ScopeKind::Section, Some(uri), fors);
    }

    /// Opens the narrative scope of a paragraph that is about `fors`.
    pub fn open_paragraph(&mut self, uri: Uri, fors: Vec<Uri>)
        ensures
            final(self)@ == old(self)@.with_narrative(ScopeKind::Paragraph, Some(uri@), uris_view(fors@)),
            old(self).wf() ==> final(self).wf(),
    {
        self.open_scope(ScopeKind::Paragraph, Some(uri), fors);
    }

    /// Opens the narrative scope of the declaration of a variable.
    pub fn open_variable(&mut self, uri: Uri)
        ensures
            final(self)@ == old(self)@.with_narrative(ScopeKind::Variable, Some(uri@), Seq::<UriView>::empty()),
            old(self).wf() ==> final(self).wf(),
    {
        let fors: Vec<Uri> = Vec::new();
        assert(uris_view(fors@) =~= Seq::<UriView>::empty());
        self.open_scope(ScopeKind::Variable, Some(uri), fors);
    }

    /// Opens the narrative scope of an exercise.
    pub fn open_exercise(&mut self, uri: Uri)
        ensures
            final(self)@ == old(self)@.with_narrative(ScopeKind::Exercise, Some(uri@), Seq::<UriView>::empty()),
            old(self).wf() ==> final(self).wf(),
    {
        let fors: Vec<Uri> = Vec::new();
        assert(uris_view(fors@) =~= Seq::<UriView>::empty());
        self.open_scope(ScopeKind::Exercise, Some(uri), fors);
    }

    /// Begins a term under construction.
    pub fn open_frame(&mut self, f: Frame)
        ensures
            final(self)@ == old(self)@.with_frame(f@),
    {
        self.frames.push(f);
        assert(self@.frames =~= old(self)@.frames.push(f@));
    }

    /// Begins a declaration, which may receive a type and a definiens.
    pub fn open_decl(&mut self)
        ensures
            final(self)@ == old(self)@.with_frame(FrameView::Decl { tp: None, df: None }),
    {
        self.open_frame(Frame::Decl { tp: None, df: None });
    }

    /// Begins an application, which receives arguments.
    pub fn open_args(&mut self)
        ensures
            final(self)@ == old(self)@.with_frame(
                FrameView::Args { args: Seq::<TermNodeView>::empty(), count: 0 },
            ),
    {
        self.open_frame(Frame::Args { args: Term::empty(), count: 0 });
    }

    /// Begins a complex term, which receives the term it stands for.
    pub fn open_complex_term(&mut self)
        ensures
            final(self)@ == old(self)@.with_frame(FrameView::Complex { term: None }),
    {
        self.open_frame(Frame::Complex { term: None });
    }

    /// Begins the notation `id`: it is entered in the registry, and while it
    /// is read, terms are not.
    pub fn open_notation(&mut self, id: &[u8])
        ensures
            final(self)@ == old(self)@.with_notation(id@),
    {
        self.open_frame(Frame::Notation { op: None, comps: Vec::new() });
        self.in_notation = true;
        self.notations.push(copy_bytes(id));
        assert(self@.notations =~= old(self)@.notations.push(id@));
    }

    /// The identifiers of the notations opened so far.
    pub fn notations(&self) -> (r: &Vec<Vec<u8>>)
        ensures
            crate::text::views(r@) == self@.notations,
    {
        &self.notations
    }

    /// Whether a narrative scope of kind `kind` is open.
    pub fn inside(&self, kind: ScopeKind) -> (r: bool)
        ensures
            r == self@.inside(kind),
    {
        self.find_scope(kind).is_some()
    }

    /// The innermost open narrative scope of kind `kind`.
    pub fn find_scope(&self, kind: ScopeKind) -> (r: Option<usize>)
        ensures
            match r {
                Some(i) => i as int == self@.innermost(kind) && i < self@.narrative.len(),
                None => self@.innermost(kind) == -1,
            },
    {
        let mut i: usize = self.narrative.len();
        while i > 0
            invariant
                i <= self.narrative.len(),
                innermost_scope(self@.narrative, kind, i - 1) == self@.innermost(kind),
            decreases i,
        {
            i -= 1;
            assert(self@.narrative[i as int] == self.narrative@[i as int]@);
            if self.narrative[i].kind == kind {
                return Some(i);
            }
        }
        None
    }

    /// States what the current exercise presupposes.
    pub fn add_precondition(&mut self, uri: Uri, dimension: crate::terms::CognitiveDimension)
        ensures
            final(self)@ == old(self)@.with_exercise_note(ElementView::Precondition { uri: uri@, dimension }),
    {
        if self.inside(ScopeKind::Exercise) {
            self.add_element(OpenSHTMLElement::Precondition { uri, dimension }, None, None, None);
        } else {
            self.add_error(SHTMLError::NotInExercise);
        }
    }

    /// States what the current exercise aims at.
    pub fn add_objective(&mut self, uri: Uri, dimension: crate::terms::CognitiveDimension)
        ensures
            final(self)@ == old(self)@.with_exercise_note(ElementView::Objective { uri: uri@, dimension }),
    {
        if self.inside(ScopeKind::Exercise) {
            self.add_element(OpenSHTMLElement::Objective { uri, dimension }, None, None, None);
        } else {
            self.add_error(SHTMLError::NotInExercise);
        }
    }

    /// Marks `uri` as defined here.
    pub fn add_definiendum(&mut self, uri: Uri)
        ensures
            final(self)@ == old(self)@.with_definiendum(uri@),
            old(self).wf() ==> final(self).wf(),
            final(self)@.narrative.len() == old(self)@.narrative.len(),
            final(self)@.content == old(self)@.content,
            final(self)@.diagnostics == old(self)@.diagnostics,
    {
        match self.find_scope(ScopeKind::Paragraph) {
            Some(i) => {
                assert(self@.narrative[i as int] == self.narrative@[i as int]@);
                self.narrative[i].fors.push(uri);
                proof {
                    let g = old(self)@.with_definiendum(uri@);
                    assert(self@.narrative[i as int].fors =~= g.narrative[i as int].fors);
                    assert(self@.narrative =~= g.narrative);
                }
            },
            None => {},
        }
    }

    /// Records a finished narrative element at the cursor.
    pub fn add_element(&mut self, element: OpenSHTMLElement, title: Option<DocumentRange>, first: Option<usize>, second: Option<usize>)
        ensures
            final(self)@ == old(self)@.with_element(element@, title, first, second),
    {
        let depth: usize = if self.narrative.len() > 0 { self.narrative.len() - 1 } else { 0 };
        self.elements.push(Record { depth, range: self.cursor, title, element, first, second });
        assert(self@.elements =~= old(self)@.with_element(element@, title, first, second).elements);
    }

    /// Records a finished content element at the cursor.
    pub fn add_declaration(&mut self, element: OpenSHTMLElement, first: Option<usize>, second: Option<usize>)
        ensures
            final(self)@ == old(self)@.with_declaration(element@, first, second),
    {
        self.declarations.push(
            Record { depth: self.content.len(), range: self.cursor, title: None, element, first, second },
        );
        assert(self@.declarations =~= old(self)@.with_declaration(element@, first, second).declarations);
    }

    /// Keeps a resource aside and says where.
    pub fn add_resource(&mut self, r: Resource) -> (id: usize)
        ensures
            id == old(self)@.resources.len(),
            final(self)@ == old(self)@.with_resource(r@),
    {
        let id = self.resources.len();
        self.resources.push(r);
        assert(self@.resources =~= old(self)@.resources.push(r@));
        id
    }

    /// Sets the title of the document.
    pub fn set_document_title(&mut self, title: Vec<u8>)
        ensures
            final(self)@ == (StateView { title: Some(title@), ..old(self)@ }),
    {
        self.title = Some(title);
    }

    /// States a fact, unless it is stated already.
    pub fn add_triple(&mut self, subject: Vec<u8>, predicate: Predicate, object: Vec<u8>)
        ensures
            final(self)@ == old(self)@.with_triple(TripleView { subject: subject@, predicate, object: object@ }),
            final(self)@.narrative == old(self)@.narrative,
            final(self)@.content == old(self)@.content,
            final(self)@.diagnostics == old(self)@.diagnostics,
    {
        let ghost t = TripleView { subject: subject@, predicate, object: object@ };
        let mut i: usize = 0;
        while i < self.triples.len()
            invariant
                i <= self.triples.len(),
                self@ == old(self)@,
                t == (TripleView { subject: subject@, predicate, object: object@ }),
                forall|k: int| 0 <= k < i ==> (#[trigger] self@.triples[k]) != t,
            decreases self.triples.len() - i,
        {
            let x = &self.triples[i];
            assert(self@.triples[i as int] == x@);
            if x.predicate == predicate && crate::text::eq_bytes(x.subject.as_slice(), subject.as_slice())
                && crate::text::eq_bytes(x.object.as_slice(), object.as_slice()) {
                assert(self@.triples[i as int] == t);
                return ;
            }
            i += 1;
        }
        self.triples.push(Triple { subject, predicate, object });
        assert(self@.triples =~= old(self)@.triples.push(t));
    }

    /// Resolves a symbol reference in the language of the document.
    pub fn get_sym_uri(&self, s: &[u8]) -> (r: Option<Uri>)
        ensures
            opt_uri(r) == symbol_of(self@.archives, s@, self@.document.language),
    {
        resolve_symbol(&self.archives, s, self.document.language)
    }

    /// Resolves a module reference in the language of the document.
    pub fn get_mod_uri(&self, s: &[u8]) -> (r: Option<Uri>)
        ensures
            opt_uri(r) == module_of(self@.archives, s@, self@.document.language),
    {
        resolve_module(&self.archives, s, self.document.language)
    }

    /// Resolves a symbol reference and reads the symbol as a module.
    pub fn get_sym_uri_as_mod(&self, s: &[u8]) -> (r: Option<Uri>)
        ensures
            opt_uri(r) == symbol_as_module_of(self@.archives, s@, self@.document.language),
    {
        resolve_symbol_as_module(&self.archives, s, self.document.language)
    }

    /// Resolves a document reference.
    pub fn get_doc_uri(&self, s: &[u8]) -> (r: Option<Uri>)
        ensures
            opt_uri(r) == document_of(self@.archives, s@, self@.document.language),
    {
        resolve_document(&self.archives, s, self.document.language)
    }

    /// Resolves a reference to a narrative element.
    pub fn get_element_uri(&self, s: &[u8]) -> (r: Option<Uri>)
        ensures
            opt_uri(r) == element_of(s@, self@.document.language),
    {
        resolve_element(s, self.document.language)
    }
}

impl StateView {
    /// The state with the innermost content scope closed.
    pub open spec fn without_content(self) -> StateView {
        StateView { content: self.content.drop_last(), ..self }
    }

    /// The state with the innermost narrative scope closed.
    pub open spec fn without_scope(self) -> StateView {
        StateView { narrative: self.narrative.drop_last(), ..self }
    }

    /// The state with the innermost term under construction given up.
    pub open spec fn without_frame(self) -> StateView {
        StateView { frames: self.frames.drop_last(), ..self }
    }

    /// Whether the innermost narrative scope is of kind `kind` (the document's never counts).
    pub open spec fn scope_is(self, kind: ScopeKind) -> bool {
        self.narrative.len() > 1 && self.narrative.last().kind == kind
    }
}

impl ExtractorState {
    /// Closes the innermost content scope and hands back its identifier.
    pub fn pop_content(&mut self) -> (r: Option<Uri>)
        ensures
            match r {
                Some(u) => old(self)@.content.len() > 0 && u@ == old(self)@.content.last() && final(self)@
                    == old(self)@.without_content(),
                None => old(self)@.content.len() == 0 && final(self)@ == old(self)@,
            },
    {
        let r = self.content.pop();
        proof {
            if r is Some {
                assert(self@.content =~= old(self)@.content.drop_last());
                assert(old(self)@.content.last() == old(self).content@[old(self).content@.len() - 1]@);
            }
        }
        r
    }

    /// The identifier of the innermost content scope.
    pub fn current_content(&self) -> (r: Option<Uri>)
        ensures
            match r {
                Some(u) => self@.content.len() > 0 && u@ == self@.content.last(),
                None => self@.content.len() == 0,
            },
    {
        if self.content.len() == 0 {
            None
        } else {
            let u = &self.content[self.content.len() - 1];
            assert(self@.content.last() == u@);
            Some(u.copy())
        }
    }

    /// Whether the innermost narrative scope is of kind `kind`.
    pub fn scope_is(&self, kind: ScopeKind) -> (r: bool)
        ensures
            r == self@.scope_is(kind),
    {
        if self.narrative.len() > 1 {
            let sc = &self.narrative[self.narrative.len() - 1];
            assert(self@.narrative.last() == sc@);
            sc.kind == kind
        } else {
            false
        }
    }

    /// Closes the innermost narrative scope; the document's stays open.
    pub fn pop_scope(&mut self) -> (r: Option<NarrativeScope>)
        ensures
            match r {
                Some(sc) => old(self)@.narrative.len() > 1 && sc@ == old(self)@.narrative.last()
                    && final(self)@ == old(self)@.without_scope(),
                None => old(self)@.narrative.len() <= 1 && final(self)@ == old(self)@,
            },
            old(self).wf() ==> final(self).wf(),
    {
        if self.narrative.len() <= 1 {
            return None;
        }
        let r = self.narrative.pop();
        proof {
            assert(self@.narrative =~= old(self)@.narrative.drop_last());
            assert(old(self)@.narrative.last() == old(self).narrative@[old(self).narrative@.len() - 1]@);
        }
        r
    }

    /// Gives up the innermost term under construction and hands back what it had received.
    pub fn pop_frame(&mut self) -> (r: Option<Frame>)
        ensures
            match r {
                Some(f) => old(self)@.frames.len() > 0 && f@ == old(self)@.frames.last() && final(self)@
                    == old(self)@.without_frame(),
                None => old(self)@.frames.len() == 0 && final(self)@ == old(self)@,
            },
            old(self).wf() ==> final(self).wf(),
            final(self)@.narrative == old(self)@.narrative,
            final(self)@.content == old(self)@.content,
            final(self)@.diagnostics == old(self)@.diagnostics,
    {
        let r = self.frames.pop();
        proof {
            if r is Some {
                assert(self@.frames =~= old(self)@.frames.drop_last());
                assert(old(self)@.frames.last() == old(self).frames@[old(self).frames@.len() - 1]@);
            }
        }
        r
    }

    /// Hands an argument to the innermost term under construction; says
    /// whether that is an application and took it.
    pub fn add_arg(&mut self, arg: OpenArg, term: &Term) -> (took: bool)
        ensures
            match old(self)@.with_arg(arg, term@) {
                Some(s) => took && final(self)@ == s,
                None => !took && final(self)@ == old(self)@,
            },
            old(self).wf() ==> final(self).wf(),
            final(self)@.narrative == old(self)@.narrative,
            final(self)@.content == old(self)@.content,
            final(self)@.diagnostics == old(self)@.diagnostics,
    {
        let n = self.frames.len();
        if n == 0 {
            return false;
        }
        assert(self@.frames.last() == self.frames@[n - 1]@);
        match self.frames.pop() {
            Some(Frame::Args { args, count }) => {
                let mut args = args;
                let ghost before = args@;
                args.push(TermNode::Argument(arg));
                args.append(term);
                let count = if count < usize::MAX { count + 1 } else { count };
                self.frames.push(Frame::Args { args, count });
                proof {
                    let g = old(self)@.with_arg(arg, term@).unwrap();
                    assert(self@.frames =~= g.frames);
                }
                true
            },
            Some(f) => {
                self.frames.push(f);
                assert(self@.frames =~= old(self)@.frames);
                false
            },
            None => false,
        }
    }

    /// Hands the innermost term under construction, if it is a complex term,
    /// the term it stands for.
    pub fn set_complex(&mut self, term: Term) -> (took: bool)
        ensures
            match old(self)@.with_complex(term@) {
                Some(s) => took && final(self)@ == s,
                None => !took && final(self)@ == old(self)@,
            },
            old(self).wf() ==> final(self).wf(),
            final(self)@.narrative == old(self)@.narrative,
            final(self)@.content == old(self)@.content,
            final(self)@.diagnostics == old(self)@.diagnostics,
    {
        let n = self.frames.len();
        if n == 0 {
            return false;
        }
        assert(self@.frames.last() == self.frames@[n - 1]@);
        match self.frames.pop() {
            Some(Frame::Complex { .. }) => {
                self.frames.push(Frame::Complex { term: Some(term) });
                proof {
                    let g = old(self)@.with_complex(term@).unwrap();
                    assert(self@.frames =~= g.frames);
                }
                true
            },
            Some(f) => {
                self.frames.push(f);
                assert(self@.frames =~= old(self)@.frames);
                false
            },
            None => false,
        }
    }

    /// Hands the innermost term under construction, if it is a declaration,
    /// its type or its definiens.
    pub fn set_part(&mut self, term: Term, definiens: bool) -> (took: bool)
        ensures
            match old(self)@.with_part(term@, definiens) {
                Some(s) => took && final(self)@ == s,
                None => !took && final(self)@ == old(self)@,
            },
            old(self).wf() ==> final(self).wf(),
            final(self)@.narrative == old(self)@.narrative,
            final(self)@.content == old(self)@.content,
            final(self)@.diagnostics == old(self)@.diagnostics,
    {
        let n = self.frames.len();
        if n == 0 {
            return false;
        }
        assert(self@.frames.last() == self.frames@[n - 1]@);
        match self.frames.pop() {
            Some(Frame::Decl { tp, df }) => {
                if definiens {
                    self.frames.push(Frame::Decl { tp, df: Some(term) });
                } else {
                    self.frames.push(Frame::Decl { tp: Some(term), df });
                }
                proof {
                    let g = old(self)@.with_part(term@, definiens).unwrap();
                    assert(self@.frames =~= g.frames);
                }
                true
            },
            Some(f) => {
                self.frames.push(f);
                assert(self@.frames =~= old(self)@.frames);
                false
            },
            None => false,
        }
    }

    /// Hands the innermost term under construction, if it is a notation, a component.
    pub fn add_component(&mut self, range: DocumentRange, op: bool) -> (took: bool)
        ensures
            match old(self)@.with_component(range, op) {
                Some(s) => took && final(self)@ == s,
                None => !took && final(self)@ == old(self)@,
            },
            old(self).wf() ==> final(self).wf(),
            final(self)@.narrative == old(self)@.narrative,
            final(self)@.content == old(self)@.content,
            final(self)@.diagnostics == old(self)@.diagnostics,
    {
        let n = self.frames.len();
        if n == 0 {
            return false;
        }
        assert(self@.frames.last() == self.frames@[n - 1]@);
        match self.frames.pop() {
            Some(Frame::Notation { op: o, comps }) => {
                if op {
                    self.frames.push(Frame::Notation { op: Some(range), comps });
                } else {
                    let mut comps = comps;
                    comps.push(range);
                    self.frames.push(Frame::Notation { op: o, comps });
                }
                proof {
                    let g = old(self)@.with_component(range, op).unwrap();
                    assert(self@.frames =~= g.frames);
                }
                true
            },
            Some(f) => {
                self.frames.push(f);
                assert(self@.frames =~= old(self)@.frames);
                false
            },
            None => false,
        }
    }

    /// Gives the innermost narrative scope its title, if it belongs to a
    /// section, a paragraph or an exercise.
    pub fn set_title(&mut self, range: DocumentRange) -> (took: bool)
        ensures
            match old(self)@.with_title(range) {
                Some(s) => took && final(self)@ == s,
                None => !took && final(self)@ == old(self)@,
            },
            old(self).wf() ==> final(self).wf(),
            final(self)@.narrative.len() == old(self)@.narrative.len(),
            final(self)@.content == old(self)@.content,
            final(self)@.diagnostics == old(self)@.diagnostics,
    {
        let n = self.narrative.len();
        if n == 0 {
            return false;
        }
        assert(self@.narrative.last() == self.narrative@[n - 1]@);
        let kind = self.narrative[n - 1].kind;
        match kind {
            ScopeKind::Section | ScopeKind::Paragraph | ScopeKind::Exercise => {
                self.narrative[n - 1].title = Some(range);
                proof {
                    let g = old(self)@.with_title(range).unwrap();
                    assert(self@.narrative =~= g.narrative);
                }
                true
            },
            _ => false,
        }
    }

    /// The identifier of the document, written out.
    pub fn document_text(&self) -> (r: Vec<u8>)
        ensures
            r@ == self@.document.text(),
    {
        self.document.to_bytes()
    }

    /// Whether every scope that was opened has been closed.
    pub fn balanced(&self) -> (r: bool)
        ensures
            r == self@.balanced(),
    {
        self.content.len() == 0 && self.narrative.len() == 1 && self.frames.len() == 0
    }
}

/// What an extraction has found.
#[derive(Clone, Debug, PartialEq, Eq)]
pub struct Extraction {
    pub document: Uri,
    pub title: Option<Vec<u8>>,
    pub elements: Vec<Record>,
    pub declarations: Vec<Record>,
    pub resources: Vec<Resource>,
    pub triples: Vec<Triple>,
    pub notices: Vec<Diagnostic>,
}

/// What an extraction has found, as mathematical data.
pub struct ExtractionView {
    pub document: UriView,
    pub title: Option<Seq<u8>>,
    pub elements: Seq<RecordView>,
    pub declarations: Seq<RecordView>,
    pub resources: Seq<ResourceView>,
    pub triples: Seq<TripleView>,
    pub notices: Seq<DiagnosticView>,
}

impl View for Extraction {
    type V = ExtractionView;

    open spec fn view(&self) -> ExtractionView {
        ExtractionView {
            document: self.document@,
            title: opt_bytes(self.title),
            elements: records_view(self.elements@),
            declarations: records_view(self.declarations@),
            resources: resources_view(self.resources@),
            triples: triples_view(self.triples@),
            notices: diagnostics_view(self.notices@),
        }
    }
}

impl StateView {
    /// What the extraction has found.
    pub open spec fn found(self) -> ExtractionView {
        ExtractionView {
            document: self.document,
            title: self.title,
            elements: self.elements,
            declarations: self.declarations,
            resources: self.resources,
            triples: self.triples,
            notices: self.notices,
        }
    }
}

impl ExtractorState {
    /// Ends the extraction and hands out what it has found; refused while a
    /// scope is still open.
    pub fn take(self) -> (r: Result<Extraction, ()>)
        ensures
            match r {
                Ok(x) => self@.balanced() && x@ == self@.found(),
                Err(_) => !self@.balanced(),
            },
    {
        if !self.balanced() {
            return Err(());
        }
        Ok(
            Extraction {
                document: self.document,
                title: self.title,
                elements: self.elements,
                declarations: self.declarations,
                resources: self.resources,
                triples: self.triples,
                notices: self.notices,
            },
        )
    }

    /// The text of all diagnostics recorded so far, each followed by a line feed.
    pub fn report(&self) -> (r: Vec<u8>)
        ensures
            r@ == crate::errors::report(self@.diagnostics),
    {
        crate::errors::write_report(&self.diagnostics)
    }
}

} // verus!
