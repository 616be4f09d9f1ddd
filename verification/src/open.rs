//! The semantic elements that rules open on a node and that are finished when
//! the node closes.

use vstd::prelude::*;
use crate::paragraphs::ParagraphKind;
use crate::sections::SectionLevel;
use crate::terms::{
    ArgMode, AssocType, CognitiveDimension, OpenArg, PreVar, PreVarView, Term, TermSeq, VarOrSym,
    VarOrSymView,
};
use crate::text::{copy_bytes, copy_list, copy_opt, opt_bytes, views};
use crate::uris::{Language, Uri, UriView};

verus! {

/// A term that has been opened and is waiting for its parts.
#[allow(inconsistent_fields)]
#[derive(Clone, Debug, PartialEq, Eq)]
pub enum OpenTerm {
    Symref { uri: Uri, notation: Option<Vec<u8>> },
    Varref { name: PreVar, notation: Option<Vec<u8>> },
    OML { name: Vec<u8> },
    OMA { head: VarOrSym, notation: Option<Vec<u8>> },
    Complex(VarOrSym),
}

/// An open term as mathematical data.
#[allow(inconsistent_fields)]
pub enum OpenTermView {
    Symref { uri: UriView, notation: Option<Seq<u8>> },
    Varref { name: PreVarView, notation: Option<Seq<u8>> },
    OML { name: Seq<u8> },
    OMA { head: VarOrSymView, notation: Option<Seq<u8>> },
    Complex(VarOrSymView),
}

impl View for OpenTerm {
    type V = OpenTermView;

    open spec fn view(&self) -> OpenTermView {
        match self {
            OpenTerm::Symref { uri, notation } => OpenTermView::Symref {
                uri: uri@,
                notation: opt_bytes(*notation),
            },
            OpenTerm::Varref { name, notation } => OpenTermView::Varref {
                name: name@,
                notation: opt_bytes(*notation),
            },
            OpenTerm::OML { name } => OpenTermView::OML { name: name@ },
            OpenTerm::OMA { head, notation } => OpenTermView::OMA {
                head: head@,
                notation: opt_bytes(*notation),
            },
            OpenTerm::Complex(head) => OpenTermView::Complex(head@),
        }
    }
}

/// The view of an optional identifier.
pub open spec fn opt_uri(o: Option<Uri>) -> Option<UriView> {
    match o {
        Some(u) => Some(u@),
        None => None,
    }
}

/// The identifiers that a vector holds.
pub open spec fn uris_view(v: Seq<Uri>) -> Seq<UriView> {
    Seq::new(v.len(), |i: int| v[i]@)
}

/// An owned copy of a vector of identifiers.
pub fn copy_uris(v: &Vec<Uri>) -> (r: Vec<Uri>)
    ensures
        uris_view(r@) == uris_view(v@),
{
    let mut r: Vec<Uri> = Vec::new();
    let mut i: usize = 0;
    while i < v.len()
        invariant
            i <= v.len(),
            r@.len() == i,
            forall|k: int| 0 <= k < i ==> (#[trigger] r@[k])@ == v@[k]@,
        decreases v.len() - i,
    {
        r.push(v[i].copy());
        i += 1;
    }
    assert(uris_view(r@) =~= uris_view(v@));
    r
}

/// A semantic element that is open on a node.
#[allow(inconsistent_fields)]
#[derive(Clone, Debug, PartialEq, Eq)]
pub enum OpenSHTMLElement {
    Invisible,
    SetSectionLevel(SectionLevel),
    ImportModule(Uri),
    UseModule(Uri),
    Module { uri: Uri, meta: Option<Uri>, signature: Option<Language> },
    MathStructure { uri: Uri, macroname: Option<Vec<u8>> },
    Morphism { uri: Option<Uri>, domain: Uri, total: bool },
    Assign(Uri),
    Section { lvl: SectionLevel, uri: Uri },
    Paragraph { kind: ParagraphKind, inline: bool, styles: Vec<Vec<u8>>, uri: Uri, fors: Vec<Uri> },
    Exercise {
        sub_exercise: bool,
        styles: Vec<Vec<u8>>,
        uri: Uri,
        autogradable: bool,
        /// The points as written; they are read as a number outside this library.
        points: Option<Vec<u8>>,
    },
    Doctitle,
    Title,
    Symdecl {
        uri: Uri,
        arity: Vec<ArgMode>,
        macroname: Option<Vec<u8>>,
        role: Vec<Vec<u8>>,
        assoctype: Option<AssocType>,
        reordering: Option<Vec<u8>>,
    },
    Vardecl {
        uri: Uri,
        arity: Vec<ArgMode>,
        macroname: Option<Vec<u8>>,
        role: Vec<Vec<u8>>,
        assoctype: Option<AssocType>,
        reordering: Option<Vec<u8>>,
        bind: bool,
        is_seq: bool,
    },
    Notation { id: Vec<u8>, symbol: VarOrSym, precedence: i64, argprecs: Vec<i64> },
    NotationComp,
    NotationOpComp,
    Definiendum(Uri),
    Type,
    Conclusion { uri: Uri, in_term: bool },
    Definiens { uri: Option<Uri>, in_term: bool },
    MMTRule(Vec<u8>),
    ArgSep,
    ArgMap,
    ArgMapSep,
    OpenTerm { term: OpenTerm, is_top: bool },
    Arg(OpenArg),
    HeadTerm,
    Inputref { uri: Uri, id: Vec<u8> },
    IfInputref(bool),
    Comp,
    MainComp,
    /// A finished term that is handed up until an element takes it.
    ClosedTerm(Term),
    /// What an exercise presupposes; recorded at once, never pending on a node.
    Precondition { uri: Uri, dimension: CognitiveDimension },
    /// What an exercise aims at; recorded at once, never pending on a node.
    Objective { uri: Uri, dimension: CognitiveDimension },
}

/// A semantic element as mathematical data.
#[allow(inconsistent_fields)]
pub enum ElementView {
    Invisible,
    SetSectionLevel(SectionLevel),
    ImportModule(UriView),
    UseModule(UriView),
    Module { uri: UriView, meta: Option<UriView>, signature: Option<Language> },
    MathStructure { uri: UriView, macroname: Option<Seq<u8>> },
    Morphism { uri: Option<UriView>, domain: UriView, total: bool },
    Assign(UriView),
    Section { lvl: SectionLevel, uri: UriView },
    Paragraph {
        kind: ParagraphKind,
        inline: bool,
        styles: Seq<Seq<u8>>,
        uri: UriView,
        fors: Seq<UriView>,
    },
    Exercise {
        sub_exercise: bool,
        styles: Seq<Seq<u8>>,
        uri: UriView,
        autogradable: bool,
        points: Option<Seq<u8>>,
    },
    Doctitle,
    Title,
    Symdecl {
        uri: UriView,
        arity: Seq<ArgMode>,
        macroname: Option<Seq<u8>>,
        role: Seq<Seq<u8>>,
        assoctype: Option<AssocType>,
        reordering: Option<Seq<u8>>,
    },
    Vardecl {
        uri: UriView,
        arity: Seq<ArgMode>,
        macroname: Option<Seq<u8>>,
        role: Seq<Seq<u8>>,
        assoctype: Option<AssocType>,
        reordering: Option<Seq<u8>>,
        bind: bool,
        is_seq: bool,
    },
    Notation { id: Seq<u8>, symbol: VarOrSymView, precedence: i64, argprecs: Seq<i64> },
    NotationComp,
    NotationOpComp,
    Definiendum(UriView),
    Type,
    Conclusion { uri: UriView, in_term: bool },
    Definiens { uri: Option<UriView>, in_term: bool },
    MMTRule(Seq<u8>),
    ArgSep,
    ArgMap,
    ArgMapSep,
    OpenTerm { term: OpenTermView, is_top: bool },
    Arg(OpenArg),
    HeadTerm,
    Inputref { uri: UriView, id: Seq<u8> },
    IfInputref(bool),
    Comp,
    MainComp,
    ClosedTerm(TermSeq),
    Precondition { uri: UriView, dimension: CognitiveDimension },
    Objective { uri: UriView, dimension: CognitiveDimension },
}

impl View for OpenSHTMLElement {
    type V = ElementView;

    open spec fn view(&self) -> ElementView {
        match self {
            OpenSHTMLElement::Invisible => ElementView::Invisible,
            OpenSHTMLElement::SetSectionLevel(l) => ElementView::SetSectionLevel(*l),
            OpenSHTMLElement::ImportModule(u) => ElementView::ImportModule(u@),
            OpenSHTMLElement::UseModule(u) => ElementView::UseModule(u@),
            OpenSHTMLElement::Module { uri, meta, signature } => ElementView::Module {
                uri: uri@,
                meta: opt_uri(*meta),
                signature: *signature,
            },
            OpenSHTMLElement::MathStructure { uri, macroname } => ElementView::MathStructure {
                uri: uri@,
                macroname: opt_bytes(*macroname),
            },
            OpenSHTMLElement::Morphism { uri, domain, total } => ElementView::Morphism {
                uri: opt_uri(*uri),
                domain: domain@,
                total: *total,
            },
            OpenSHTMLElement::Assign(u) => ElementView::Assign(u@),
            OpenSHTMLElement::Section { lvl, uri } => ElementView::Section { lvl: *lvl, uri: uri@ },
            OpenSHTMLElement::Paragraph { kind, inline, styles, uri, fors } => ElementView::Paragraph {
                kind: *kind,
                inline: *inline,
                styles: views(styles@),
                uri: uri@,
                fors: uris_view(fors@),
            },
            OpenSHTMLElement::Exercise { sub_exercise, styles, uri, autogradable, points } => ElementView::Exercise {
                sub_exercise: *sub_exercise,
                styles: views(styles@),
                uri: uri@,
                autogradable: *autogradable,
                points: opt_bytes(*points),
            },
            OpenSHTMLElement::Doctitle => ElementView::Doctitle,
            OpenSHTMLElement::Title => ElementView::Title,
            OpenSHTMLElement::Symdecl { uri, arity, macroname, role, assoctype, reordering } => ElementView::Symdecl {
                uri: uri@,
                arity: arity@,
                macroname: opt_bytes(*macroname),
                role: views(role@),
                assoctype: *assoctype,
                reordering: opt_bytes(*reordering),
            },
            OpenSHTMLElement::Vardecl {
                uri,
                arity,
                macroname,
                role,
                assoctype,
                reordering,
                bind,
                is_seq,
            } => ElementView::Vardecl {
                uri: uri@,
                arity: arity@,
                macroname: opt_bytes(*macroname),
                role: views(role@),
                assoctype: *assoctype,
                reordering: opt_bytes(*reordering),
                bind: *bind,
                is_seq: *is_seq,
            },
            OpenSHTMLElement::Notation { id, symbol, precedence, argprecs } => ElementView::Notation {
                id: id@,
                symbol: symbol@,
                precedence: *precedence,
                argprecs: argprecs@,
            },
            OpenSHTMLElement::NotationComp => ElementView::NotationComp,
            OpenSHTMLElement::NotationOpComp => ElementView::NotationOpComp,
            OpenSHTMLElement::Definiendum(u) => ElementView::Definiendum(u@),
            OpenSHTMLElement::Type => ElementView::Type,
            OpenSHTMLElement::Conclusion { uri, in_term } => ElementView::Conclusion {
                uri: uri@,
                in_term: *in_term,
            },
            OpenSHTMLElement::Definiens { uri, in_term } => ElementView::Definiens {
                uri: opt_uri(*uri),
                in_term: *in_term,
            },
            OpenSHTMLElement::MMTRule(id) => ElementView::MMTRule(id@),
            OpenSHTMLElement::ArgSep => ElementView::ArgSep,
            OpenSHTMLElement::ArgMap => ElementView::ArgMap,
            OpenSHTMLElement::ArgMapSep => ElementView::ArgMapSep,
            OpenSHTMLElement::OpenTerm { term, is_top } => ElementView::OpenTerm {
                term: term@,
                is_top: *is_top,
            },
            OpenSHTMLElement::Arg(a) => ElementView::Arg(*a),
            OpenSHTMLElement::HeadTerm => ElementView::HeadTerm,
            OpenSHTMLElement::Inputref { uri, id } => ElementView::Inputref { uri: uri@, id: id@ },
            OpenSHTMLElement::IfInputref(b) => ElementView::IfInputref(*b),
            OpenSHTMLElement::Comp => ElementView::Comp,
            OpenSHTMLElement::MainComp => ElementView::MainComp,
            OpenSHTMLElement::ClosedTerm(t) => ElementView::ClosedTerm(t@),
            OpenSHTMLElement::Precondition { uri, dimension } => ElementView::Precondition {
                uri: uri@,
                dimension: *dimension,
            },
            OpenSHTMLElement::Objective { uri, dimension } => ElementView::Objective {
                uri: uri@,
                dimension: *dimension,
            },
        }
    }
}

impl ElementView {
    /// Whether the element owns a narrative scope: the scope is opened with
    /// the element and closes when the element closes.
    pub open spec fn owns_scope(self) -> bool {
        self is Module || self is MathStructure || self is Morphism || self is Section
            || self is Paragraph || self is Exercise || self is Vardecl
    }

    /// Whether the element owns a content scope.
    pub open spec fn owns_content(self) -> bool {
        self is Module || self is MathStructure || self is Morphism
    }

    /// Whether the element takes a finished term when one reaches it.
    pub open spec fn takes_term(self) -> bool {
        self is Arg || self is HeadTerm || self is Type || self is Conclusion || self is Definiens
    }
}

impl OpenSHTMLElement {
    /// Whether the element takes a finished term when one reaches it.
    pub fn takes_term(&self) -> (r: bool)
        ensures
            r == self@.takes_term(),
    {
        match self {
            OpenSHTMLElement::Arg(_) => true,
            OpenSHTMLElement::HeadTerm => true,
            OpenSHTMLElement::Type => true,
            OpenSHTMLElement::Conclusion { .. } => true,
            OpenSHTMLElement::Definiens { .. } => true,
            _ => false,
        }
    }
}

/// Number of narrative scopes that an element owns, if there is an element.
pub open spec fn scope_of(e: Option<ElementView>) -> int {
    match e {
        Some(e) => if e.owns_scope() {
            1
        } else {
            0
        },
        None => 0,
    }
}

/// Number of content scopes that an element owns, if there is an element.
pub open spec fn content_of(e: Option<ElementView>) -> int {
    match e {
        Some(e) => if e.owns_content() {
            1
        } else {
            0
        },
        None => 0,
    }
}

/// Number of narrative scopes that the elements own.
pub open spec fn scopes_in(elems: Seq<ElementView>) -> int
    decreases elems.len(),
{
    if elems.len() == 0 {
        0
    } else {
        scopes_in(elems.drop_last()) + scope_of(Some(elems.last()))
    }
}

/// Number of content scopes that the elements own.
pub open spec fn contents_in(elems: Seq<ElementView>) -> int
    decreases elems.len(),
{
    if elems.len() == 0 {
        0
    } else {
        contents_in(elems.drop_last()) + content_of(Some(elems.last()))
    }
}

/// Elements own no negative number of scopes.
pub proof fn lemma_scopes_in(elems: Seq<ElementView>)
    ensures
        scopes_in(elems) >= 0,
        contents_in(elems) >= 0,
    decreases elems.len(),
{
    if elems.len() > 0 {
        lemma_scopes_in(elems.drop_last());
    }
}

/// The pending semantic elements of a node, the most recently opened last.
#[derive(Clone, Debug, PartialEq, Eq)]
pub struct SHTMLElements {
    pub elems: Vec<OpenSHTMLElement>,
}

/// The elements that a vector holds.
pub open spec fn elements_view(v: Seq<OpenSHTMLElement>) -> Seq<ElementView> {
    Seq::new(v.len(), |i: int| v[i]@)
}

impl View for SHTMLElements {
    type V = Seq<ElementView>;

    open spec fn view(&self) -> Seq<ElementView> {
        elements_view(self.elems@)
    }
}

impl SHTMLElements {
    /// No elements.
    pub fn new() -> (r: SHTMLElements)
        ensures
            r@ == Seq::<ElementView>::empty(),
    {
        let r = SHTMLElements { elems: Vec::new() };
        assert(r@ =~= Seq::<ElementView>::empty());
        r
    }

    /// Whether no element is pending.
    #[must_use]
    pub fn is_empty(&self) -> (r: bool)
        ensures
            r == (self@.len() == 0),
    {
        self.elems.len() == 0
    }

    /// Number of pending elements.
    pub fn len(&self) -> (r: usize)
        ensures
            r == self@.len(),
    {
        self.elems.len()
    }

    /// Opens one more element.
    pub fn push(&mut self, e: OpenSHTMLElement)
        ensures
            final(self)@ == old(self)@.push(e@),
    {
        self.elems.push(e);
        assert(self@ =~= old(self)@.push(e@));
    }

    /// Takes the most recently opened element.
    pub fn pop(&mut self) -> (r: Option<OpenSHTMLElement>)
        ensures
            match r {
                Some(e) => old(self)@.len() > 0 && e@ == old(self)@.last() && final(self)@
                    == old(self)@.drop_last(),
                None => old(self)@.len() == 0 && final(self)@ == old(self)@,
            },
    {
        let r = self.elems.pop();
        proof {
            if r is Some {
                assert(self@ =~= old(self)@.drop_last());
            } else {
                assert(self@ =~= old(self)@);
            }
        }
        r
    }

    /// The elements in the order in which they will be finished: the most
    /// recently opened first.
    #[must_use]
    pub fn iter(&self) -> (r: Vec<&OpenSHTMLElement>)
        ensures
            r@.len() == self@.len(),
            forall|i: int| 0 <= i < r@.len() ==> (#[trigger] r@[i])@ == self@[self@.len() - 1 - i],
    {
        let mut r: Vec<&OpenSHTMLElement> = Vec::new();
        let n: usize = self.elems.len();
        let mut i: usize = 0;
        while i < n
            invariant
                i <= n,
                n == self.elems@.len(),
                n == self@.len(),
                r@.len() == i,
                forall|k: int| 0 <= k < i ==> (#[trigger] r@[k])@ == self@[n - 1 - k],
            decreases n - i,
        {
            assert(self@[n - 1 - i] == self.elems@[n - 1 - i]@);
            r.push(&self.elems[n - 1 - i]);
            i += 1;
        }
        r
    }

    /// The elements, the most recently opened last.
    #[must_use]
    pub fn take(self) -> (r: Vec<OpenSHTMLElement>)
        ensures
            elements_view(r@) == self@,
    {
        self.elems
    }
}

/// An owned copy of an optional identifier.
pub fn copy_opt_uri(o: &Option<Uri>) -> (r: Option<Uri>)
    ensures
        opt_uri(r) == opt_uri(*o),
{
    match o {
        Some(u) => Some(u.copy()),
        None => None,
    }
}

/// An owned copy of a vector of plain values.
pub fn copy_plain<T: Copy>(v: &Vec<T>) -> (r: Vec<T>)
    ensures
        r@ == v@,
{
    let mut r: Vec<T> = Vec::new();
    let mut i: usize = 0;
    while i < v.len()
        invariant
            i <= v.len(),
            r@ == v@.take(i as int),
        decreases v.len() - i,
    {
        r.push(v[i]);
        assert(v@.take(i + 1) =~= v@.take(i as int).push(v@[i as int]));
        i += 1;
    }
    assert(v@.take(v@.len() as int) =~= v@);
    r
}

impl OpenTerm {
    /// An identical value.
    pub fn copy(&self) -> (r: OpenTerm)
        ensures
            r@ == self@,
    {
        match self {
            OpenTerm::Symref { uri, notation } => OpenTerm::Symref {
                uri: uri.copy(),
                notation: copy_opt(notation),
            },
            OpenTerm::Varref { name, notation } => OpenTerm::Varref {
                name: name.copy(),
                notation: copy_opt(notation),
            },
            OpenTerm::OML { name } => OpenTerm::OML { name: copy_bytes(name.as_slice()) },
            OpenTerm::OMA { head, notation } => OpenTerm::OMA {
                head: head.copy(),
                notation: copy_opt(notation),
            },
            OpenTerm::Complex(head) => OpenTerm::Complex(head.copy()),
        }
    }
}

impl OpenSHTMLElement {
    /// An identical value.
    pub fn copy(&self) -> (r: OpenSHTMLElement)
        ensures
            r@ == self@,
    {
        match self {
            OpenSHTMLElement::Invisible => OpenSHTMLElement::Invisible,
            OpenSHTMLElement::SetSectionLevel(l) => OpenSHTMLElement::SetSectionLevel(*l),
            OpenSHTMLElement::ImportModule(u) => OpenSHTMLElement::ImportModule(u.copy()),
            OpenSHTMLElement::UseModule(u) => OpenSHTMLElement::UseModule(u.copy()),
            OpenSHTMLElement::Module { uri, meta, signature } => OpenSHTMLElement::Module {
                uri: uri.copy(),
                meta: copy_opt_uri(meta),
                signature: *signature,
            },
            OpenSHTMLElement::MathStructure { uri, macroname } => OpenSHTMLElement::MathStructure {
                uri: uri.copy(),
                macroname: copy_opt(macroname),
            },
            OpenSHTMLElement::Morphism { uri, domain, total } => OpenSHTMLElement::Morphism {
                uri: copy_opt_uri(uri),
                domain: domain.copy(),
                total: *total,
            },
            OpenSHTMLElement::Assign(u) => OpenSHTMLElement::Assign(u.copy()),
            OpenSHTMLElement::Section { lvl, uri } => OpenSHTMLElement::Section {
                lvl: *lvl,
                uri: uri.copy(),
            },
            OpenSHTMLElement::Paragraph { kind, inline, styles, uri, fors } => OpenSHTMLElement::Paragraph {
                kind: *kind,
                inline: *inline,
                styles: copy_list(styles),
                uri: uri.copy(),
                fors: copy_uris(fors),
            },
            OpenSHTMLElement::Exercise { sub_exercise, styles, uri, autogradable, points } => OpenSHTMLElement::Exercise {
                sub_exercise: *sub_exercise,
                styles: copy_list(styles),
                uri: uri.copy(),
                autogradable: *autogradable,
                points: copy_opt(points),
            },
            OpenSHTMLElement::Doctitle => OpenSHTMLElement::Doctitle,
            OpenSHTMLElement::Title => OpenSHTMLElement::Title,
            OpenSHTMLElement::Symdecl { uri, arity, macroname, role, assoctype, reordering } => OpenSHTMLElement::Symdecl {
                uri: uri.copy(),
                arity: copy_plain(arity),
                macroname: copy_opt(macroname),
                role: copy_list(role),
                assoctype: *assoctype,
                reordering: copy_opt(reordering),
            },
            OpenSHTMLElement::Vardecl {
                uri,
                arity,
                macroname,
                role,
                assoctype,
                reordering,
                bind,
                is_seq,
            } => OpenSHTMLElement::Vardecl {
                uri: uri.copy(),
                arity: copy_plain(arity),
                macroname: copy_opt(macroname),
                role: copy_list(role),
                assoctype: *assoctype,
                reordering: copy_opt(reordering),
                bind: *bind,
                is_seq: *is_seq,
            },
            OpenSHTMLElement::Notation { id, symbol, precedence, argprecs } => OpenSHTMLElement::Notation {
                id: copy_bytes(id.as_slice()),
                symbol: symbol.copy(),
                precedence: *precedence,
                argprecs: copy_plain(argprecs),
            },
            OpenSHTMLElement::NotationComp => OpenSHTMLElement::NotationComp,
            OpenSHTMLElement::NotationOpComp => OpenSHTMLElement::NotationOpComp,
            OpenSHTMLElement::Definiendum(u) => OpenSHTMLElement::Definiendum(u.copy()),
            OpenSHTMLElement::Type => OpenSHTMLElement::Type,
            OpenSHTMLElement::Conclusion { uri, in_term } => OpenSHTMLElement::Conclusion {
                uri: uri.copy(),
                in_term: *in_term,
            },
            OpenSHTMLElement::Definiens { uri, in_term } => OpenSHTMLElement::Definiens {
                uri: copy_opt_uri(uri),
                in_term: *in_term,
            },
            OpenSHTMLElement::MMTRule(id) => OpenSHTMLElement::MMTRule(copy_bytes(id.as_slice())),
            OpenSHTMLElement::ArgSep => OpenSHTMLElement::ArgSep,
            OpenSHTMLElement::ArgMap => OpenSHTMLElement::ArgMap,
            OpenSHTMLElement::ArgMapSep => OpenSHTMLElement::ArgMapSep,
            OpenSHTMLElement::OpenTerm { term, is_top } => OpenSHTMLElement::OpenTerm {
                term: term.copy(),
                is_top: *is_top,
            },
            OpenSHTMLElement::Arg(a) => OpenSHTMLElement::Arg(*a),
            OpenSHTMLElement::HeadTerm => OpenSHTMLElement::HeadTerm,
            OpenSHTMLElement::Inputref { uri, id } => OpenSHTMLElement::Inputref {
                uri: uri.copy(),
                id: copy_bytes(id.as_slice()),
            },
            OpenSHTMLElement::IfInputref(b) => OpenSHTMLElement::IfInputref(*b),
            OpenSHTMLElement::Comp => OpenSHTMLElement::Comp,
            OpenSHTMLElement::MainComp => OpenSHTMLElement::MainComp,
            OpenSHTMLElement::ClosedTerm(t) => OpenSHTMLElement::ClosedTerm(t.copy()),
            OpenSHTMLElement::Precondition { uri, dimension } => OpenSHTMLElement::Precondition {
                uri: uri.copy(),
                dimension: *dimension,
            },
            OpenSHTMLElement::Objective { uri, dimension } => OpenSHTMLElement::Objective {
                uri: uri.copy(),
                dimension: *dimension,
            },
        }
    }
}

} // verus!
