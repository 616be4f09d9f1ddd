//! The reserved attribute namespace and the rule table.
//!
//! Every recognised attribute has a key. The table lists the keys in the
//! order in which their rules run on an element that carries several of them.

use vstd::prelude::*;
use vstd::string::*;
use crate::text::lit;

verus! {

/// The keys of the recognised attributes.
#[derive(Copy, Clone, Debug, PartialEq, Eq, Hash, Structural)]
pub enum SHTMLKey {
    Module,
    MathStructure,
    Morphism,
    Assign,
    Section,
    Definition,
    Paragraph,
    Assertion,
    Example,
    Proof,
    SubProof,
    Exercise,
    SubExercise,
    DocTitle,
    Title,
    PreconditionDimension,
    ObjectiveDimension,
    Symdecl,
    Vardef,
    Varseq,
    Notation,
    NotationComp,
    NotationOpComp,
    Definiendum,
    Type,
    Conclusion,
    Definiens,
    Rule,
    ArgSep,
    ArgMap,
    ArgMapSep,
    Term,
    Arg,
    HeadTerm,
    ImportModule,
    UseModule,
    InputRef,
    SetSectionLevel,
    IfInputref,
    Comp,
    MainComp,
    Invisible,
    Language,
    Metatheory,
    Signature,
    Macroname,
    Inline,
    Fors,
    Styles,
    Id,
    Autogradable,
    ProblemPoints,
    PreconditionSymbol,
    ObjectiveSymbol,
    Role,
    AssocType,
    Args,
    ArgumentReordering,
    Bind,
    NotationFragment,
    Precedence,
    Argprecs,
    Head,
    NotationId,
    ArgMode,
    MorphismDomain,
    MorphismTotal,
}

/// The prefix that marks an attribute as one of the reserved namespace.
pub const PREFIX: &'static str = "shtml:";

impl SHTMLKey {
    /// The name of the key's attribute without the prefix, as bytes.
    pub open spec fn name(self) -> Seq<u8> {
        match self {
            SHTMLKey::Module => lit("module"),
            SHTMLKey::MathStructure => lit("mathstructure"),
            SHTMLKey::Morphism => lit("morphism"),
            SHTMLKey::Assign => lit("assign"),
            SHTMLKey::Section => lit("section"),
            SHTMLKey::Definition => lit("definition"),
            SHTMLKey::Paragraph => lit("paragraph"),
            SHTMLKey::Assertion => lit("assertion"),
            SHTMLKey::Example => lit("example"),
            SHTMLKey::Proof => lit("proof"),
            SHTMLKey::SubProof => lit("subproof"),
            SHTMLKey::Exercise => lit("exercise"),
            SHTMLKey::SubExercise => lit("subexercise"),
            SHTMLKey::DocTitle => lit("doctitle"),
            SHTMLKey::Title => lit("title"),
            SHTMLKey::PreconditionDimension => lit("preconditiondimension"),
            SHTMLKey::ObjectiveDimension => lit("objectivedimension"),
            SHTMLKey::Symdecl => lit("symdecl"),
            SHTMLKey::Vardef => lit("vardef"),
            SHTMLKey::Varseq => lit("varseq"),
            SHTMLKey::Notation => lit("notation"),
            SHTMLKey::NotationComp => lit("notationcomp"),
            SHTMLKey::NotationOpComp => lit("notationopcomp"),
            SHTMLKey::Definiendum => lit("definiendum"),
            SHTMLKey::Type => lit("type"),
            SHTMLKey::Conclusion => lit("conclusion"),
            SHTMLKey::Definiens => lit("definiens"),
            SHTMLKey::Rule => lit("rule"),
            SHTMLKey::ArgSep => lit("argsep"),
            SHTMLKey::ArgMap => lit("argmap"),
            SHTMLKey::ArgMapSep => lit("argmapsep"),
            SHTMLKey::Term => lit("term"),
            SHTMLKey::Arg => lit("arg"),
            SHTMLKey::HeadTerm => lit("headterm"),
            SHTMLKey::ImportModule => lit("import"),
            SHTMLKey::UseModule => lit("usemodule"),
            SHTMLKey::InputRef => lit("inputref"),
            SHTMLKey::SetSectionLevel => lit("sectionlevel"),
            SHTMLKey::IfInputref => lit("ifinputref"),
            SHTMLKey::Comp => lit("comp"),
            SHTMLKey::MainComp => lit("maincomp"),
            SHTMLKey::Invisible => lit("invisible"),
            SHTMLKey::Language => lit("language"),
            SHTMLKey::Metatheory => lit("metatheory"),
            SHTMLKey::Signature => lit("signature"),
            SHTMLKey::Macroname => lit("macroname"),
            SHTMLKey::Inline => lit("inline"),
            SHTMLKey::Fors => lit("fors"),
            SHTMLKey::Styles => lit("styles"),
            SHTMLKey::Id => lit("id"),
            SHTMLKey::Autogradable => lit("autogradable"),
            SHTMLKey::ProblemPoints => lit("problempoints"),
            SHTMLKey::PreconditionSymbol => lit("preconditionsymbol"),
            SHTMLKey::ObjectiveSymbol => lit("objectivesymbol"),
            SHTMLKey::Role => lit("role"),
            SHTMLKey::AssocType => lit("assoctype"),
            SHTMLKey::Args => lit("args"),
            SHTMLKey::ArgumentReordering => lit("reorderargs"),
            SHTMLKey::Bind => lit("bind"),
            SHTMLKey::NotationFragment => lit("notationfragment"),
            SHTMLKey::Precedence => lit("precedence"),
            SHTMLKey::Argprecs => lit("argprecs"),
            SHTMLKey::Head => lit("head"),
            SHTMLKey::NotationId => lit("notationid"),
            SHTMLKey::ArgMode => lit("argmode"),
            SHTMLKey::MorphismDomain => lit("domain"),
            SHTMLKey::MorphismTotal => lit("total"),
        }
    }

    /// The name of the key's attribute, as bytes.
    pub open spec fn attr(self) -> Seq<u8> {
        match self {
            SHTMLKey::Module => lit("shtml:module"),
            SHTMLKey::MathStructure => lit("shtml:mathstructure"),
            SHTMLKey::Morphism => lit("shtml:morphism"),
            SHTMLKey::Assign => lit("shtml:assign"),
            SHTMLKey::Section => lit("shtml:section"),
            SHTMLKey::Definition => lit("shtml:definition"),
            SHTMLKey::Paragraph => lit("shtml:paragraph"),
            SHTMLKey::Assertion => lit("shtml:assertion"),
            SHTMLKey::Example => lit("shtml:example"),
            SHTMLKey::Proof => lit("shtml:proof"),
            SHTMLKey::SubProof => lit("shtml:subproof"),
            SHTMLKey::Exercise => lit("shtml:exercise"),
            SHTMLKey::SubExercise => lit("shtml:subexercise"),
            SHTMLKey::DocTitle => lit("shtml:doctitle"),
            SHTMLKey::Title => lit("shtml:title"),
            SHTMLKey::PreconditionDimension => lit("shtml:preconditiondimension"),
            SHTMLKey::ObjectiveDimension => lit("shtml:objectivedimension"),
            SHTMLKey::Symdecl => lit("shtml:symdecl"),
            SHTMLKey::Vardef => lit("shtml:vardef"),
            SHTMLKey::Varseq => lit("shtml:varseq"),
            SHTMLKey::Notation => lit("shtml:notation"),
            SHTMLKey::NotationComp => lit("shtml:notationcomp"),
            SHTMLKey::NotationOpComp => lit("shtml:notationopcomp"),
            SHTMLKey::Definiendum => lit("shtml:definiendum"),
            SHTMLKey::Type => lit("shtml:type"),
            SHTMLKey::Conclusion => lit("shtml:conclusion"),
            SHTMLKey::Definiens => lit("shtml:definiens"),
            SHTMLKey::Rule => lit("shtml:rule"),
            SHTMLKey::ArgSep => lit("shtml:argsep"),
            SHTMLKey::ArgMap => lit("shtml:argmap"),
            SHTMLKey::ArgMapSep => lit("shtml:argmapsep"),
            SHTMLKey::Term => lit("shtml:term"),
            SHTMLKey::Arg => lit("shtml:arg"),
            SHTMLKey::HeadTerm => lit("shtml:headterm"),
            SHTMLKey::ImportModule => lit("shtml:import"),
            SHTMLKey::UseModule => lit("shtml:usemodule"),
            SHTMLKey::InputRef => lit("shtml:inputref"),
            SHTMLKey::SetSectionLevel => lit("shtml:sectionlevel"),
            SHTMLKey::IfInputref => lit("shtml:ifinputref"),
            SHTMLKey::Comp => lit("shtml:comp"),
            SHTMLKey::MainComp => lit("shtml:maincomp"),
            SHTMLKey::Invisible => lit("shtml:invisible"),
            SHTMLKey::Language => lit("shtml:language"),
            SHTMLKey::Metatheory => lit("shtml:metatheory"),
            SHTMLKey::Signature => lit("shtml:signature"),
            SHTMLKey::Macroname => lit("shtml:macroname"),
            SHTMLKey::Inline => lit("shtml:inline"),
            SHTMLKey::Fors => lit("shtml:fors"),
            SHTMLKey::Styles => lit("shtml:styles"),
            SHTMLKey::Id => lit("shtml:id"),
            SHTMLKey::Autogradable => lit("shtml:autogradable"),
            SHTMLKey::ProblemPoints => lit("shtml:problempoints"),
            SHTMLKey::PreconditionSymbol => lit("shtml:preconditionsymbol"),
            SHTMLKey::ObjectiveSymbol => lit("shtml:objectivesymbol"),
            SHTMLKey::Role => lit("shtml:role"),
            SHTMLKey::AssocType => lit("shtml:assoctype"),
            SHTMLKey::Args => lit("shtml:args"),
            SHTMLKey::ArgumentReordering => lit("shtml:reorderargs"),
            SHTMLKey::Bind => lit("shtml:bind"),
            SHTMLKey::NotationFragment => lit("shtml:notationfragment"),
            SHTMLKey::Precedence => lit("shtml:precedence"),
            SHTMLKey::Argprecs => lit("shtml:argprecs"),
            SHTMLKey::Head => lit("shtml:head"),
            SHTMLKey::NotationId => lit("shtml:notationid"),
            SHTMLKey::ArgMode => lit("shtml:argmode"),
            SHTMLKey::MorphismDomain => lit("shtml:domain"),
            SHTMLKey::MorphismTotal => lit("shtml:total"),
        }
    }

    /// The name of the key's attribute without the prefix.
    pub fn as_str(self) -> (r: &'static str)
        ensures
            lit(r) == self.name(),
    {
        match self {
            SHTMLKey::Module => "module",
            SHTMLKey::MathStructure => "mathstructure",
            SHTMLKey::Morphism => "morphism",
            SHTMLKey::Assign => "assign",
            SHTMLKey::Section => "section",
            SHTMLKey::Definition => "definition",
            SHTMLKey::Paragraph => "paragraph",
            SHTMLKey::Assertion => "assertion",
            SHTMLKey::Example => "example",
            SHTMLKey::Proof => "proof",
            SHTMLKey::SubProof => "subproof",
            SHTMLKey::Exercise => "exercise",
            SHTMLKey::SubExercise => "subexercise",
            SHTMLKey::DocTitle => "doctitle",
            SHTMLKey::Title => "title",
            SHTMLKey::PreconditionDimension => "preconditiondimension",
            SHTMLKey::ObjectiveDimension => "objectivedimension",
            SHTMLKey::Symdecl => "symdecl",
            SHTMLKey::Vardef => "vardef",
            SHTMLKey::Varseq => "varseq",
            SHTMLKey::Notation => "notation",
            SHTMLKey::NotationComp => "notationcomp",
            SHTMLKey::NotationOpComp => "notationopcomp",
            SHTMLKey::Definiendum => "definiendum",
            SHTMLKey::Type => "type",
            SHTMLKey::Conclusion => "conclusion",
            SHTMLKey::Definiens => "definiens",
            SHTMLKey::Rule => "rule",
            SHTMLKey::ArgSep => "argsep",
            SHTMLKey::ArgMap => "argmap",
            SHTMLKey::ArgMapSep => "argmapsep",
            SHTMLKey::Term => "term",
            SHTMLKey::Arg => "arg",
            SHTMLKey::HeadTerm => "headterm",
            SHTMLKey::ImportModule => "import",
            SHTMLKey::UseModule => "usemodule",
            SHTMLKey::InputRef => "inputref",
            SHTMLKey::SetSectionLevel => "sectionlevel",
            SHTMLKey::IfInputref => "ifinputref",
            SHTMLKey::Comp => "comp",
            SHTMLKey::MainComp => "maincomp",
            SHTMLKey::Invisible => "invisible",
            SHTMLKey::Language => "language",
            SHTMLKey::Metatheory => "metatheory",
            SHTMLKey::Signature => "signature",
            SHTMLKey::Macroname => "macroname",
            SHTMLKey::Inline => "inline",
            SHTMLKey::Fors => "fors",
            SHTMLKey::Styles => "styles",
            SHTMLKey::Id => "id",
            SHTMLKey::Autogradable => "autogradable",
            SHTMLKey::ProblemPoints => "problempoints",
            SHTMLKey::PreconditionSymbol => "preconditionsymbol",
            SHTMLKey::ObjectiveSymbol => "objectivesymbol",
            SHTMLKey::Role => "role",
            SHTMLKey::AssocType => "assoctype",
            SHTMLKey::Args => "args",
            SHTMLKey::ArgumentReordering => "reorderargs",
            SHTMLKey::Bind => "bind",
            SHTMLKey::NotationFragment => "notationfragment",
            SHTMLKey::Precedence => "precedence",
            SHTMLKey::Argprecs => "argprecs",
            SHTMLKey::Head => "head",
            SHTMLKey::NotationId => "notationid",
            SHTMLKey::ArgMode => "argmode",
            SHTMLKey::MorphismDomain => "domain",
            SHTMLKey::MorphismTotal => "total",
        }
    }

    /// The name of the key's attribute.
    pub fn attr_name(self) -> (r: &'static str)
        ensures
            lit(r) == self.attr(),
    {
        match self {
            SHTMLKey::Module => "shtml:module",
            SHTMLKey::MathStructure => "shtml:mathstructure",
            SHTMLKey::Morphism => "shtml:morphism",
            SHTMLKey::Assign => "shtml:assign",
            SHTMLKey::Section => "shtml:section",
            SHTMLKey::Definition => "shtml:definition",
            SHTMLKey::Paragraph => "shtml:paragraph",
            SHTMLKey::Assertion => "shtml:assertion",
            SHTMLKey::Example => "shtml:example",
            SHTMLKey::Proof => "shtml:proof",
            SHTMLKey::SubProof => "shtml:subproof",
            SHTMLKey::Exercise => "shtml:exercise",
            SHTMLKey::SubExercise => "shtml:subexercise",
            SHTMLKey::DocTitle => "shtml:doctitle",
            SHTMLKey::Title => "shtml:title",
            SHTMLKey::PreconditionDimension => "shtml:preconditiondimension",
            SHTMLKey::ObjectiveDimension => "shtml:objectivedimension",
            SHTMLKey::Symdecl => "shtml:symdecl",
            SHTMLKey::Vardef => "shtml:vardef",
            SHTMLKey::Varseq => "shtml:varseq",
            SHTMLKey::Notation => "shtml:notation",
            SHTMLKey::NotationComp => "shtml:notationcomp",
            SHTMLKey::NotationOpComp => "shtml:notationopcomp",
            SHTMLKey::Definiendum => "shtml:definiendum",
            SHTMLKey::Type => "shtml:type",
            SHTMLKey::Conclusion => "shtml:conclusion",
            SHTMLKey::Definiens => "shtml:definiens",
            SHTMLKey::Rule => "shtml:rule",
            SHTMLKey::ArgSep => "shtml:argsep",
            SHTMLKey::ArgMap => "shtml:argmap",
            SHTMLKey::ArgMapSep => "shtml:argmapsep",
            SHTMLKey::Term => "shtml:term",
            SHTMLKey::Arg => "shtml:arg",
            SHTMLKey::HeadTerm => "shtml:headterm",
            SHTMLKey::ImportModule => "shtml:import",
            SHTMLKey::UseModule => "shtml:usemodule",
            SHTMLKey::InputRef => "shtml:inputref",
            SHTMLKey::SetSectionLevel => "shtml:sectionlevel",
            SHTMLKey::IfInputref => "shtml:ifinputref",
            SHTMLKey::Comp => "shtml:comp",
            SHTMLKey::MainComp => "shtml:maincomp",
            SHTMLKey::Invisible => "shtml:invisible",
            SHTMLKey::Language => "shtml:language",
            SHTMLKey::Metatheory => "shtml:metatheory",
            SHTMLKey::Signature => "shtml:signature",
            SHTMLKey::Macroname => "shtml:macroname",
            SHTMLKey::Inline => "shtml:inline",
            SHTMLKey::Fors => "shtml:fors",
            SHTMLKey::Styles => "shtml:styles",
            SHTMLKey::Id => "shtml:id",
            SHTMLKey::Autogradable => "shtml:autogradable",
            SHTMLKey::ProblemPoints => "shtml:problempoints",
            SHTMLKey::PreconditionSymbol => "shtml:preconditionsymbol",
            SHTMLKey::ObjectiveSymbol => "shtml:objectivesymbol",
            SHTMLKey::Role => "shtml:role",
            SHTMLKey::AssocType => "shtml:assoctype",
            SHTMLKey::Args => "shtml:args",
            SHTMLKey::ArgumentReordering => "shtml:reorderargs",
            SHTMLKey::Bind => "shtml:bind",
            SHTMLKey::NotationFragment => "shtml:notationfragment",
            SHTMLKey::Precedence => "shtml:precedence",
            SHTMLKey::Argprecs => "shtml:argprecs",
            SHTMLKey::Head => "shtml:head",
            SHTMLKey::NotationId => "shtml:notationid",
            SHTMLKey::ArgMode => "shtml:argmode",
            SHTMLKey::MorphismDomain => "shtml:domain",
            SHTMLKey::MorphismTotal => "shtml:total",
        }
    }
}

/// Number of entries of the rule table.
pub const RULES: usize = 67;

/// The key of the `i`-th entry of the rule table.
pub open spec fn key_at(i: int) -> SHTMLKey {
    if i == 0 {
        SHTMLKey::Module
    } else if i == 1 {
        SHTMLKey::MathStructure
    } else if i == 2 {
        SHTMLKey::Morphism
    } else if i == 3 {
        SHTMLKey::Assign
    } else if i == 4 {
        SHTMLKey::Section
    } else if i == 5 {
        SHTMLKey::Definition
    } else if i == 6 {
        SHTMLKey::Paragraph
    } else if i == 7 {
        SHTMLKey::Assertion
    } else if i == 8 {
        SHTMLKey::Example
    } else if i == 9 {
        SHTMLKey::Proof
    } else if i == 10 {
        SHTMLKey::SubProof
    } else if i == 11 {
        SHTMLKey::Exercise
    } else if i == 12 {
        SHTMLKey::SubExercise
    } else if i == 13 {
        SHTMLKey::DocTitle
    } else if i == 14 {
        SHTMLKey::Title
    } else if i == 15 {
        SHTMLKey::PreconditionDimension
    } else if i == 16 {
        SHTMLKey::ObjectiveDimension
    } else if i == 17 {
        SHTMLKey::Symdecl
    } else if i == 18 {
        SHTMLKey::Vardef
    } else if i == 19 {
        SHTMLKey::Varseq
    } else if i == 20 {
        SHTMLKey::Notation
    } else if i == 21 {
        SHTMLKey::NotationComp
    } else if i == 22 {
        SHTMLKey::NotationOpComp
    } else if i == 23 {
        SHTMLKey::Definiendum
    } else if i == 24 {
        SHTMLKey::Type
    } else if i == 25 {
        SHTMLKey::Conclusion
    } else if i == 26 {
        SHTMLKey::Definiens
    } else if i == 27 {
        SHTMLKey::Rule
    } else if i == 28 {
        SHTMLKey::ArgSep
    } else if i == 29 {
        SHTMLKey::ArgMap
    } else if i == 30 {
        SHTMLKey::ArgMapSep
    } else if i == 31 {
        SHTMLKey::Term
    } else if i == 32 {
        SHTMLKey::Arg
    } else if i == 33 {
        SHTMLKey::HeadTerm
    } else if i == 34 {
        SHTMLKey::ImportModule
    } else if i == 35 {
        SHTMLKey::UseModule
    } else if i == 36 {
        SHTMLKey::InputRef
    } else if i == 37 {
        SHTMLKey::SetSectionLevel
    } else if i == 38 {
        SHTMLKey::IfInputref
    } else if i == 39 {
        SHTMLKey::Comp
    } else if i == 40 {
        SHTMLKey::MainComp
    } else if i == 41 {
        SHTMLKey::Invisible
    } else if i == 42 {
        SHTMLKey::Language
    } else if i == 43 {
        SHTMLKey::Metatheory
    } else if i == 44 {
        SHTMLKey::Signature
    } else if i == 45 {
        SHTMLKey::Macroname
    } else if i == 46 {
        SHTMLKey::Inline
    } else if i == 47 {
        SHTMLKey::Fors
    } else if i == 48 {
        SHTMLKey::Styles
    } else if i == 49 {
        SHTMLKey::Id
    } else if i == 50 {
        SHTMLKey::Autogradable
    } else if i == 51 {
        SHTMLKey::ProblemPoints
    } else if i == 52 {
        SHTMLKey::PreconditionSymbol
    } else if i == 53 {
        SHTMLKey::ObjectiveSymbol
    } else if i == 54 {
        SHTMLKey::Role
    } else if i == 55 {
        SHTMLKey::AssocType
    } else if i == 56 {
        SHTMLKey::Args
    } else if i == 57 {
        SHTMLKey::ArgumentReordering
    } else if i == 58 {
        SHTMLKey::Bind
    } else if i == 59 {
        SHTMLKey::NotationFragment
    } else if i == 60 {
        SHTMLKey::Precedence
    } else if i == 61 {
        SHTMLKey::Argprecs
    } else if i == 62 {
        SHTMLKey::Head
    } else if i == 63 {
        SHTMLKey::NotationId
    } else if i == 64 {
        SHTMLKey::ArgMode
    } else if i == 65 {
        SHTMLKey::MorphismDomain
    } else {
        SHTMLKey::MorphismTotal
    }
}

/// The rule table: every key once, in running order.
pub open spec fn table() -> Seq<SHTMLKey> {
    Seq::new(RULES as nat, |i: int| key_at(i))
}

/// The rule table.
pub fn all_rules() -> (r: Vec<SHTMLKey>)
    ensures
        r@ == table(),
{
    let mut r: Vec<SHTMLKey> = Vec::new();
    let mut i: u8 = 0;
    while (i as usize) < RULES
        invariant
            i <= RULES,
            r@.len() == i,
            forall|k: int| 0 <= k < i ==> r@[k] == key_at(k),
        decreases RULES - i,
    {
        r.push(rule(i));
        i += 1;
    }
    assert(r@ =~= table());
    r
}

/// The key of the `i`-th entry of the rule table.
pub fn rule(i: u8) -> (r: SHTMLKey)
    requires
        i < RULES,
    ensures
        r == table()[i as int],
{
    match i {
        0 => SHTMLKey::Module,
        1 => SHTMLKey::MathStructure,
        2 => SHTMLKey::Morphism,
        3 => SHTMLKey::Assign,
        4 => SHTMLKey::Section,
        5 => SHTMLKey::Definition,
        6 => SHTMLKey::Paragraph,
        7 => SHTMLKey::Assertion,
        8 => SHTMLKey::Example,
        9 => SHTMLKey::Proof,
        10 => SHTMLKey::SubProof,
        11 => SHTMLKey::Exercise,
        12 => SHTMLKey::SubExercise,
        13 => SHTMLKey::DocTitle,
        14 => SHTMLKey::Title,
        15 => SHTMLKey::PreconditionDimension,
        16 => SHTMLKey::ObjectiveDimension,
        17 => SHTMLKey::Symdecl,
        18 => SHTMLKey::Vardef,
        19 => SHTMLKey::Varseq,
        20 => SHTMLKey::Notation,
        21 => SHTMLKey::NotationComp,
        22 => SHTMLKey::NotationOpComp,
        23 => SHTMLKey::Definiendum,
        24 => SHTMLKey::Type,
        25 => SHTMLKey::Conclusion,
        26 => SHTMLKey::Definiens,
        27 => SHTMLKey::Rule,
        28 => SHTMLKey::ArgSep,
        29 => SHTMLKey::ArgMap,
        30 => SHTMLKey::ArgMapSep,
        31 => SHTMLKey::Term,
        32 => SHTMLKey::Arg,
        33 => SHTMLKey::HeadTerm,
        34 => SHTMLKey::ImportModule,
        35 => SHTMLKey::UseModule,
        36 => SHTMLKey::InputRef,
        37 => SHTMLKey::SetSectionLevel,
        38 => SHTMLKey::IfInputref,
        39 => SHTMLKey::Comp,
        40 => SHTMLKey::MainComp,
        41 => SHTMLKey::Invisible,
        42 => SHTMLKey::Language,
        43 => SHTMLKey::Metatheory,
        44 => SHTMLKey::Signature,
        45 => SHTMLKey::Macroname,
        46 => SHTMLKey::Inline,
        47 => SHTMLKey::Fors,
        48 => SHTMLKey::Styles,
        49 => SHTMLKey::Id,
        50 => SHTMLKey::Autogradable,
        51 => SHTMLKey::ProblemPoints,
        52 => SHTMLKey::PreconditionSymbol,
        53 => SHTMLKey::ObjectiveSymbol,
        54 => SHTMLKey::Role,
        55 => SHTMLKey::AssocType,
        56 => SHTMLKey::Args,
        57 => SHTMLKey::ArgumentReordering,
        58 => SHTMLKey::Bind,
        59 => SHTMLKey::NotationFragment,
        60 => SHTMLKey::Precedence,
        61 => SHTMLKey::Argprecs,
        62 => SHTMLKey::Head,
        63 => SHTMLKey::NotationId,
        64 => SHTMLKey::ArgMode,
        65 => SHTMLKey::MorphismDomain,
        _ => SHTMLKey::MorphismTotal,
    }
}

} // verus!
