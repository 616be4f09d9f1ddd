//! Kinds of logical paragraphs.

use vstd::prelude::*;
use vstd::string::*;
use crate::sections::DocumentRange;
use crate::text::{eq_str, lit};
use crate::uris::{Uri, UriView};

verus! {

/// The classes of the upper library ontology that paragraphs belong to.
#[derive(Copy, Clone, Debug, PartialEq, Eq, Structural)]
pub enum UloClass {
    Definition,
    Proposition,
    Para,
    Proof,
    SubProof,
    Example,
}

impl UloClass {
    /// The IRI of the class.
    pub fn iri(self) -> (r: &'static str)
        ensures
            r@ == match self {
                UloClass::Definition => "http://mathhub.info/ulo#definition"@,
                UloClass::Proposition => "http://mathhub.info/ulo#proposition"@,
                UloClass::Para => "http://mathhub.info/ulo#para"@,
                UloClass::Proof => "http://mathhub.info/ulo#proof"@,
                UloClass::SubProof => "http://mathhub.info/ulo#subproof"@,
                UloClass::Example => "http://mathhub.info/ulo#example"@,
            },
    {
        match self {
            UloClass::Definition => "http://mathhub.info/ulo#definition",
            UloClass::Proposition => "http://mathhub.info/ulo#proposition",
            UloClass::Para => "http://mathhub.info/ulo#para",
            UloClass::Proof => "http://mathhub.info/ulo#proof",
            UloClass::SubProof => "http://mathhub.info/ulo#subproof",
            UloClass::Example => "http://mathhub.info/ulo#example",
        }
    }
}

/// What a logical paragraph is.
#[derive(Copy, Clone, Debug, PartialEq, Eq, Hash, Structural)]
#[non_exhaustive]
pub enum ParagraphKind {
    Definition,
    Assertion,
    Paragraph,
    Proof,
    SubProof,
    Example,
}

/// The kind that an attribute name announces.
pub open spec fn kind_of_attribute(s: Seq<u8>) -> Option<ParagraphKind> {
    if s == lit("shtml:definition") {
        Some(ParagraphKind::Definition)
    } else if s == lit("shtml:assertion") {
        Some(ParagraphKind::Assertion)
    } else if s == lit("shtml:paragraph") {
        Some(ParagraphKind::Paragraph)
    } else if s == lit("shtml:proof") {
        Some(ParagraphKind::Proof)
    } else if s == lit("shtml:subproof") {
        Some(ParagraphKind::SubProof)
    } else {
        None
    }
}

/// Whether one of the styles marks a paragraph as the documentation or the
/// declaration of a symbol.
pub open spec fn declares(styles: Seq<Seq<u8>>) -> bool {
    exists|i: int| 0 <= i < styles.len() && (#[trigger] styles[i] == lit("symdoc") || styles[i] == lit("decl"))
}

impl ParagraphKind {
    /// The kind that an attribute name announces; example paragraphs are announced by no name.
    #[must_use]
    pub fn from_shtml(s: &str) -> (r: Option<Self>)
        ensures
            r == kind_of_attribute(lit(s)),
    {
        let b = s.as_bytes();
        if eq_str(b, "shtml:definition") {
            Some(ParagraphKind::Definition)
        } else if eq_str(b, "shtml:assertion") {
            Some(ParagraphKind::Assertion)
        } else if eq_str(b, "shtml:paragraph") {
            Some(ParagraphKind::Paragraph)
        } else if eq_str(b, "shtml:proof") {
            Some(ParagraphKind::Proof)
        } else if eq_str(b, "shtml:subproof") {
            Some(ParagraphKind::SubProof)
        } else {
            None
        }
    }

    /// Whether a paragraph of this kind with these styles introduces what it
    /// is about: definitions and assertions always do, other paragraphs when
    /// styled `symdoc` or `decl`.
    pub fn is_definition_like(&self, styles: &[Vec<u8>]) -> (r: bool)
        ensures
            r == (*self == ParagraphKind::Definition || *self == ParagraphKind::Assertion || declares(
                crate::text::views(styles@),
            )),
    {
        match self {
            ParagraphKind::Definition => true,
            ParagraphKind::Assertion => true,
            _ => {
                let mut i: usize = 0;
                while i < styles.len()
                    invariant
                        i <= styles.len(),
                        forall|k: int|
                            0 <= k < i ==> !(#[trigger] styles@[k]@ == lit("symdoc") || styles@[k]@ == lit(
                                "decl",
                            )),
                    decreases styles.len() - i,
                {
                    if eq_str(styles[i].as_slice(), "symdoc") || eq_str(styles[i].as_slice(), "decl") {
                        assert(crate::text::views(styles@)[i as int] == styles@[i as int]@);
                        return true;
                    }
                    i += 1;
                }
                assert forall|k: int| 0 <= k < styles@.len() implies !(#[trigger] crate::text::views(
                    styles@,
                )[k] == lit("symdoc") || crate::text::views(styles@)[k] == lit("decl")) by {
                    assert(crate::text::views(styles@)[k] == styles@[k]@);
                }
                false
            },
        }
    }

    /// The ontology class of paragraphs of this kind.
    #[must_use]
    pub fn rdf_type(&self) -> (r: UloClass)
        ensures
            r == match *self {
                ParagraphKind::Definition => UloClass::Definition,
                ParagraphKind::Assertion => UloClass::Proposition,
                ParagraphKind::Paragraph => UloClass::Para,
                ParagraphKind::Proof => UloClass::Proof,
                ParagraphKind::SubProof => UloClass::SubProof,
                ParagraphKind::Example => UloClass::Example,
            },
    {
        match self {
            ParagraphKind::Definition => UloClass::Definition,
            ParagraphKind::Assertion => UloClass::Proposition,
            ParagraphKind::Paragraph => UloClass::Para,
            ParagraphKind::Proof => UloClass::Proof,
            ParagraphKind::SubProof => UloClass::SubProof,
            ParagraphKind::Example => UloClass::Example,
        }
    }

    /// The lower-case name of the kind.
    pub open spec fn name(self) -> Seq<u8> {
        match self {
            ParagraphKind::Definition => lit("definition"),
            ParagraphKind::Assertion => lit("assertion"),
            ParagraphKind::Paragraph => lit("paragraph"),
            ParagraphKind::Proof => lit("proof"),
            ParagraphKind::SubProof => lit("subproof"),
            ParagraphKind::Example => lit("example"),
        }
    }

    /// The lower-case name of the kind, which also begins generated identifiers.
    #[must_use]
    pub fn as_str(self) -> (r: &'static str)
        ensures
            lit(r) == self.name(),
    {
        match self {
            ParagraphKind::Definition => "definition",
            ParagraphKind::Assertion => "assertion",
            ParagraphKind::Paragraph => "paragraph",
            ParagraphKind::Proof => "proof",
            ParagraphKind::SubProof => "subproof",
            ParagraphKind::Example => "example",
        }
    }

    /// The name of the kind as shown to a reader.
    pub fn to_string(&self) -> (r: String)
        ensures
            r@ == match *self {
                ParagraphKind::Definition => "Definition"@,
                ParagraphKind::Assertion => "Assertion"@,
                ParagraphKind::Paragraph => "Paragraph"@,
                ParagraphKind::Proof => "Proof"@,
                ParagraphKind::SubProof => "Subproof"@,
                ParagraphKind::Example => "Example"@,
            },
    {
        match self {
            ParagraphKind::Definition => "Definition".to_owned(),
            ParagraphKind::Assertion => "Assertion".to_owned(),
            ParagraphKind::Paragraph => "Paragraph".to_owned(),
            ParagraphKind::Proof => "Proof".to_owned(),
            ParagraphKind::SubProof => "Subproof".to_owned(),
            ParagraphKind::Example => "Example".to_owned(),
        }
    }
}

/// A logical paragraph as it is extracted. Its children are the records
/// that precede it at a greater depth.
#[derive(Clone, Debug, PartialEq, Eq)]
pub struct UncheckedLogicalParagraph {
    pub kind: ParagraphKind,
    pub uri: Uri,
    pub inline: bool,
    pub title: Option<DocumentRange>,
    pub range: DocumentRange,
    pub styles: Vec<Vec<u8>>,
    /// The symbols that the paragraph is about.
    pub fors: Vec<Uri>,
}

/// A logical paragraph as mathematical data.
pub struct ParagraphView {
    pub kind: ParagraphKind,
    pub uri: UriView,
    pub inline: bool,
    pub title: Option<DocumentRange>,
    pub range: DocumentRange,
    pub styles: Seq<Seq<u8>>,
    pub fors: Seq<UriView>,
}

impl View for UncheckedLogicalParagraph {
    type V = ParagraphView;

    open spec fn view(&self) -> ParagraphView {
        ParagraphView {
            kind: self.kind,
            uri: self.uri@,
            inline: self.inline,
            title: self.title,
            range: self.range,
            styles: crate::text::views(self.styles@),
            fors: Seq::new(self.fors@.len(), |i: int| self.fors@[i]@),
        }
    }
}

} // verus!
