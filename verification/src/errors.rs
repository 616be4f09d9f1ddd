//! What can go wrong while a document is extracted, and how it is reported.

use vstd::prelude::*;
use crate::keys::SHTMLKey;
use crate::sections::DocumentRange;
use crate::terms::{OpenTermKind, VarOrSym, VarOrSymView};
use crate::text::{copy_bytes, lit, push_bytes, push_str};

verus! {

/// The severity of a diagnostic.
#[derive(Copy, Clone, Debug, PartialEq, Eq, Structural)]
pub enum DiagnosticLevel {
    Error,
    Warning,
    Info,
    Hint,
}

/// An error of a rule or of the structure of the document.
#[derive(Clone, Debug, PartialEq, Eq)]
pub enum SHTMLError {
    MissingArguments,
    MissingElementsInList,
    MissingTermForComplex(VarOrSym),
    UnresolvedVariable(Vec<u8>),
    MissingHeadForTerm,
    InvalidTermKind(Vec<u8>),
    InvalidHeadForTermKind(OpenTermKind, VarOrSym),
    InvalidArgSpec,
    InvalidKeyFor(SHTMLKey, Option<Vec<u8>>),
    NotInContent,
    NotInNarrative,
    NotInParagraph,
    NotInExercise,
    InvalidKey,
    IncompleteArgs,
}

/// An error as mathematical data.
pub enum ErrorView {
    MissingArguments,
    MissingElementsInList,
    MissingTermForComplex(VarOrSymView),
    UnresolvedVariable(Seq<u8>),
    MissingHeadForTerm,
    InvalidTermKind(Seq<u8>),
    InvalidHeadForTermKind(OpenTermKind, VarOrSymView),
    InvalidArgSpec,
    InvalidKeyFor(SHTMLKey, Option<Seq<u8>>),
    NotInContent,
    NotInNarrative,
    NotInParagraph,
    NotInExercise,
    InvalidKey,
    IncompleteArgs,
}

impl View for SHTMLError {
    type V = ErrorView;

    open spec fn view(&self) -> ErrorView {
        match self {
            SHTMLError::MissingArguments => ErrorView::MissingArguments,
            SHTMLError::MissingElementsInList => ErrorView::MissingElementsInList,
            SHTMLError::MissingTermForComplex(h) => ErrorView::MissingTermForComplex(h@),
            SHTMLError::UnresolvedVariable(n) => ErrorView::UnresolvedVariable(n@),
            SHTMLError::MissingHeadForTerm => ErrorView::MissingHeadForTerm,
            SHTMLError::InvalidTermKind(s) => ErrorView::InvalidTermKind(s@),
            SHTMLError::InvalidHeadForTermKind(k, h) => ErrorView::InvalidHeadForTermKind(*k, h@),
            SHTMLError::InvalidArgSpec => ErrorView::InvalidArgSpec,
            SHTMLError::InvalidKeyFor(k, v) => ErrorView::InvalidKeyFor(
                *k,
                match v {
                    Some(v) => Some(v@),
                    None => None,
                },
            ),
            SHTMLError::NotInContent => ErrorView::NotInContent,
            SHTMLError::NotInNarrative => ErrorView::NotInNarrative,
            SHTMLError::NotInParagraph => ErrorView::NotInParagraph,
            SHTMLError::NotInExercise => ErrorView::NotInExercise,
            SHTMLError::InvalidKey => ErrorView::InvalidKey,
            SHTMLError::IncompleteArgs => ErrorView::IncompleteArgs,
        }
    }
}

impl ErrorView {
    /// The message of the error.
    pub open spec fn message(self) -> Seq<u8> {
        match self {
            ErrorView::MissingArguments => lit("missing arguments in OMA"),
            ErrorView::MissingElementsInList => lit("missing elements in term list"),
            ErrorView::MissingTermForComplex(h) => lit("missing actual term for complex term ") + h.text(),
            ErrorView::UnresolvedVariable(n) => lit("unresolved variable ") + n,
            ErrorView::MissingHeadForTerm => lit("missing shtml:head attribute for term"),
            ErrorView::InvalidTermKind(s) => lit("invalid term kind ") + s,
            ErrorView::InvalidHeadForTermKind(k, h) => lit("invalid head ") + h.text() + lit(
                " for term kind ",
            ) + k.name(),
            ErrorView::InvalidArgSpec => lit("invalid or missing argument marker"),
            ErrorView::InvalidKeyFor(k, Some(v)) => lit("invalid key ") + v + lit(" for shtml tag ")
                + k.name(),
            ErrorView::InvalidKeyFor(k, None) => lit("missing key for shtml tag ") + k.name(),
            ErrorView::NotInContent => lit("content element outside of a module"),
            ErrorView::NotInNarrative => lit("unbalanced narrative element"),
            ErrorView::NotInParagraph => lit("unbalanced logical paragraph"),
            ErrorView::NotInExercise => lit("unbalanced exercise element"),
            ErrorView::InvalidKey => lit("invalid key in shtml element"),
            ErrorView::IncompleteArgs => lit("incomplete argument list"),
        }
    }
}

impl SHTMLError {
    /// The message of the error.
    pub fn message(&self) -> (r: Vec<u8>)
        ensures
            r@ == self@.message(),
    {
        let mut r: Vec<u8> = Vec::new();
        match self {
            SHTMLError::MissingArguments => {
                push_str(&mut r, "missing arguments in OMA");
            },
            SHTMLError::MissingElementsInList => {
                push_str(&mut r, "missing elements in term list");
            },
            SHTMLError::MissingTermForComplex(h) => {
                push_str(&mut r, "missing actual term for complex term ");
                let t = h.to_bytes();
                push_bytes(&mut r, t.as_slice());
            },
            SHTMLError::UnresolvedVariable(n) => {
                push_str(&mut r, "unresolved variable ");
                push_bytes(&mut r, n.as_slice());
            },
            SHTMLError::MissingHeadForTerm => {
                push_str(&mut r, "missing shtml:head attribute for term");
            },
            SHTMLError::InvalidTermKind(s) => {
                push_str(&mut r, "invalid term kind ");
                push_bytes(&mut r, s.as_slice());
            },
            SHTMLError::InvalidHeadForTermKind(k, h) => {
                push_str(&mut r, "invalid head ");
                let t = h.to_bytes();
                push_bytes(&mut r, t.as_slice());
                push_str(&mut r, " for term kind ");
                push_str(&mut r, k.as_str());
            },
            SHTMLError::InvalidArgSpec => {
                push_str(&mut r, "invalid or missing argument marker");
            },
            SHTMLError::InvalidKeyFor(k, Some(v)) => {
                push_str(&mut r, "invalid key ");
                push_bytes(&mut r, v.as_slice());
                push_str(&mut r, " for shtml tag ");
                push_str(&mut r, k.as_str());
            },
            SHTMLError::InvalidKeyFor(k, None) => {
                push_str(&mut r, "missing key for shtml tag ");
                push_str(&mut r, k.as_str());
            },
            SHTMLError::NotInContent => {
                push_str(&mut r, "content element outside of a module");
            },
            SHTMLError::NotInNarrative => {
                push_str(&mut r, "unbalanced narrative element");
            },
            SHTMLError::NotInParagraph => {
                push_str(&mut r, "unbalanced logical paragraph");
            },
            SHTMLError::NotInExercise => {
                push_str(&mut r, "unbalanced exercise element");
            },
            SHTMLError::InvalidKey => {
                push_str(&mut r, "invalid key in shtml element");
            },
            SHTMLError::IncompleteArgs => {
                push_str(&mut r, "incomplete argument list");
            },
        }
        assert(r@ =~= self@.message());
        r
    }
}

/// A message about the document: how severe, what, and where.
#[derive(Clone, Debug, PartialEq, Eq)]
pub struct Diagnostic {
    pub level: DiagnosticLevel,
    pub message: Vec<u8>,
    pub range: DocumentRange,
}

/// A diagnostic as mathematical data.
pub struct DiagnosticView {
    pub level: DiagnosticLevel,
    pub message: Seq<u8>,
    pub range: DocumentRange,
}

impl View for Diagnostic {
    type V = DiagnosticView;

    open spec fn view(&self) -> DiagnosticView {
        DiagnosticView { level: self.level, message: self.message@, range: self.range }
    }
}

/// The text of all diagnostics, each followed by a line feed.
pub open spec fn report(ds: Seq<DiagnosticView>) -> Seq<u8>
    decreases ds.len(),
{
    if ds.len() == 0 {
        Seq::<u8>::empty()
    } else {
        report(ds.drop_last()) + ds.last().message + seq![0x0au8]
    }
}

/// The diagnostics that a vector holds.
pub open spec fn diagnostics_view(v: Seq<Diagnostic>) -> Seq<DiagnosticView> {
    Seq::new(v.len(), |i: int| v[i]@)
}

/// Writes out all diagnostics, each followed by a line feed.
pub fn write_report(ds: &Vec<Diagnostic>) -> (r: Vec<u8>)
    ensures
        r@ == report(diagnostics_view(ds@)),
{
    let mut r: Vec<u8> = Vec::new();
    let mut i: usize = 0;
    let ghost all = diagnostics_view(ds@);
    assert(all.take(0) =~= Seq::<DiagnosticView>::empty());
    while i < ds.len()
        invariant
            i <= ds.len(),
            all == diagnostics_view(ds@),
            r@ == report(all.take(i as int)),
        decreases ds.len() - i,
    {
        assert(all.take(i + 1).drop_last() =~= all.take(i as int));
        assert(all.take(i + 1).last() == ds@[i as int]@);
        push_bytes(&mut r, ds[i].message.as_slice());
        r.push(0x0au8);
        i += 1;
    }
    assert(all.take(all.len() as int) =~= all);
    r
}

} // verus!
