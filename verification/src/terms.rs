//! Terms and what they are built from.
//!
//! A finished term is kept in prefix form: an application is followed by its
//! head and then by its arguments, each argument announced by its marker.

use vstd::prelude::*;
use crate::sections::DocumentRange;
use crate::text::{copy_bytes, eq_str, lit, parse_decimal, slice_bytes, decimal, is_digits};
use crate::uris::{Uri, UriView};

verus! {

/// How a term element announces itself.
#[derive(Copy, Clone, Debug, PartialEq, Eq, Structural)]
pub enum OpenTermKind {
    OMID,
    OMV,
    OMA,
    OML,
    Complex,
}

/// The kind that the value of the term attribute names.
pub open spec fn term_kind_of(s: Seq<u8>) -> Option<OpenTermKind> {
    if s == lit("OMID") || s == lit("OMMOD") {
        Some(OpenTermKind::OMID)
    } else if s == lit("OMV") {
        Some(OpenTermKind::OMV)
    } else if s == lit("OMA") || s == lit("OMBIND") {
        Some(OpenTermKind::OMA)
    } else if s == lit("OML") {
        Some(OpenTermKind::OML)
    } else if s == lit("complex") {
        Some(OpenTermKind::Complex)
    } else {
        None
    }
}

impl OpenTermKind {
    /// Reads the value of the term attribute.
    pub fn parse(s: &[u8]) -> (r: Option<OpenTermKind>)
        ensures
            r == term_kind_of(s@),
    {
        if eq_str(s, "OMID") || eq_str(s, "OMMOD") {
            Some(OpenTermKind::OMID)
        } else if eq_str(s, "OMV") {
            Some(OpenTermKind::OMV)
        } else if eq_str(s, "OMA") || eq_str(s, "OMBIND") {
            Some(OpenTermKind::OMA)
        } else if eq_str(s, "OML") {
            Some(OpenTermKind::OML)
        } else if eq_str(s, "complex") {
            Some(OpenTermKind::Complex)
        } else {
            None
        }
    }

    /// The name of the kind.
    pub open spec fn name(self) -> Seq<u8> {
        match self {
            OpenTermKind::OMID => lit("OMID"),
            OpenTermKind::OMV => lit("OMV"),
            OpenTermKind::OMA => lit("OMA"),
            OpenTermKind::OML => lit("OML"),
            OpenTermKind::Complex => lit("complex"),
        }
    }

    /// The name of the kind.
    pub fn as_str(self) -> (r: &'static str)
        ensures
            lit(r) == self.name(),
    {
        match self {
            OpenTermKind::OMID => "OMID",
            OpenTermKind::OMV => "OMV",
            OpenTermKind::OMA => "OMA",
            OpenTermKind::OML => "OML",
            OpenTermKind::Complex => "complex",
        }
    }
}

/// A variable: resolved to the narrative element that declares it, or only named.
#[derive(Clone, Debug, PartialEq, Eq)]
pub enum PreVar {
    Resolved(Uri),
    Unresolved(Vec<u8>),
}

/// A variable as mathematical data.
pub enum PreVarView {
    Resolved(UriView),
    Unresolved(Seq<u8>),
}

impl View for PreVar {
    type V = PreVarView;

    open spec fn view(&self) -> PreVarView {
        match self {
            PreVar::Resolved(u) => PreVarView::Resolved(u@),
            PreVar::Unresolved(n) => PreVarView::Unresolved(n@),
        }
    }
}

impl PreVar {
    /// An identical value.
    pub fn copy(&self) -> (r: PreVar)
        ensures
            r@ == self@,
    {
        match self {
            PreVar::Resolved(u) => PreVar::Resolved(u.copy()),
            PreVar::Unresolved(n) => PreVar::Unresolved(copy_bytes(n.as_slice())),
        }
    }
}

/// The head of a term: a symbol (or a module) or a variable.
#[derive(Clone, Debug, PartialEq, Eq)]
pub enum VarOrSym {
    S(Uri),
    V(PreVar),
}

/// The head of a term as mathematical data.
pub enum VarOrSymView {
    S(UriView),
    V(PreVarView),
}

impl View for VarOrSym {
    type V = VarOrSymView;

    open spec fn view(&self) -> VarOrSymView {
        match self {
            VarOrSym::S(u) => VarOrSymView::S(u@),
            VarOrSym::V(v) => VarOrSymView::V(v@),
        }
    }
}

impl VarOrSymView {
    /// The head written out: the identifier, or the bare name of an unresolved variable.
    pub open spec fn text(self) -> Seq<u8> {
        match self {
            VarOrSymView::S(u) => u.text(),
            VarOrSymView::V(PreVarView::Resolved(u)) => u.text(),
            VarOrSymView::V(PreVarView::Unresolved(n)) => n,
        }
    }
}

impl VarOrSym {
    /// An identical value.
    pub fn copy(&self) -> (r: VarOrSym)
        ensures
            r@ == self@,
    {
        match self {
            VarOrSym::S(u) => VarOrSym::S(u.copy()),
            VarOrSym::V(v) => VarOrSym::V(v.copy()),
        }
    }

    /// The head written out.
    pub fn to_bytes(&self) -> (r: Vec<u8>)
        ensures
            r@ == self@.text(),
    {
        match self {
            VarOrSym::S(u) => u.to_bytes(),
            VarOrSym::V(PreVar::Resolved(u)) => u.to_bytes(),
            VarOrSym::V(PreVar::Unresolved(n)) => copy_bytes(n.as_slice()),
        }
    }
}

/// How an argument is passed.
#[derive(Copy, Clone, Debug, PartialEq, Eq, Structural)]
pub enum ArgMode {
    Normal,
    Sequence,
    Binding,
    BindingSequence,
}

/// The mode that a mode letter names.
pub open spec fn mode_of(b: u8) -> Option<ArgMode> {
    if b == 0x69u8 {
        Some(ArgMode::Normal)
    } else if b == 0x61u8 {
        Some(ArgMode::Sequence)
    } else if b == 0x62u8 {
        Some(ArgMode::Binding)
    } else if b == 0x42u8 {
        Some(ArgMode::BindingSequence)
    } else {
        None
    }
}

impl ArgMode {
    /// Reads a mode letter: `i`, `a`, `b` or `B`.
    pub fn from_byte(b: u8) -> (r: Option<ArgMode>)
        ensures
            r == mode_of(b),
    {
        if b == 0x69u8 {
            Some(ArgMode::Normal)
        } else if b == 0x61u8 {
            Some(ArgMode::Sequence)
        } else if b == 0x62u8 {
            Some(ArgMode::Binding)
        } else if b == 0x42u8 {
            Some(ArgMode::BindingSequence)
        } else {
            None
        }
    }
}

/// The marker of an argument: which argument it is, which position it has
/// inside a sequence argument, and how it is passed.
#[derive(Copy, Clone, Debug, PartialEq, Eq, Structural)]
pub struct OpenArg {
    pub index: u8,
    pub position: Option<u8>,
    pub mode: ArgMode,
}

/// The marker that an argument attribute and a mode attribute announce.
///
/// The first digit of `value` is the argument's number, from 1 to 9; further
/// digits, if any, give the position inside a sequence argument. The mode is
/// one letter and is `Normal` when the attribute is absent.
pub open spec fn arg_of(value: Seq<u8>, mode: Option<Seq<u8>>) -> Option<OpenArg> {
    let m = match mode {
        None => Some(ArgMode::Normal),
        Some(m) => if m.len() == 1 {
            mode_of(m[0])
        } else {
            None
        },
    };
    if m is None || value.len() == 0 || !(0x31u8 <= value[0] <= 0x39u8) {
        None
    } else if value.len() == 1 {
        Some(OpenArg { index: (value[0] - 0x30u8) as u8, position: None, mode: m.unwrap() })
    } else if is_digits(value.skip(1)) && decimal(value.skip(1)) <= 255 {
        Some(
            OpenArg {
                index: (value[0] - 0x30u8) as u8,
                position: Some(decimal(value.skip(1)) as u8),
                mode: m.unwrap(),
            },
        )
    } else {
        None
    }
}

impl OpenArg {
    /// Reads an argument marker from the values of the argument and mode attributes.
    pub fn from_strs(value: &[u8], mode: Option<&Vec<u8>>) -> (r: Option<OpenArg>)
        ensures
            r == arg_of(
                value@,
                match mode {
                    Some(m) => Some(m@),
                    None => None,
                },
            ),
    {
        let m = match mode {
            None => ArgMode::Normal,
            Some(m) => {
                if m.len() != 1 {
                    return None;
                }
                match ArgMode::from_byte(m[0]) {
                    Some(m) => m,
                    None => { return None; },
                }
            },
        };
        if value.len() == 0 || value[0] < 0x31u8 || value[0] > 0x39u8 {
            return None;
        }
        let index: u8 = value[0] - 0x30u8;
        if value.len() == 1 {
            return Some(OpenArg { index, position: None, mode: m });
        }
        let rest = slice_bytes(value, 1, value.len());
        assert(rest@ == value@.skip(1));
        match parse_decimal(rest.as_slice(), 255) {
            Some(p) => Some(OpenArg { index, position: Some(p as u8), mode: m }),
            None => None,
        }
    }
}

/// How a binary operator associates.
#[derive(Copy, Clone, Debug, PartialEq, Eq, Structural)]
pub enum AssocType {
    LeftAssociativeBinary,
    RightAssociativeBinary,
    Conjunctive,
    PairwiseConjunctive,
    Prenex,
}

/// The associativity that a keyword names.
pub open spec fn assoc_of(s: Seq<u8>) -> Option<AssocType> {
    if s == lit("binl") || s == lit("bin") {
        Some(AssocType::LeftAssociativeBinary)
    } else if s == lit("binr") {
        Some(AssocType::RightAssociativeBinary)
    } else if s == lit("conj") {
        Some(AssocType::Conjunctive)
    } else if s == lit("pwconj") {
        Some(AssocType::PairwiseConjunctive)
    } else if s == lit("pre") {
        Some(AssocType::Prenex)
    } else {
        None
    }
}

impl AssocType {
    /// Reads an associativity keyword.
    pub fn from_str(s: &[u8]) -> (r: Option<AssocType>)
        ensures
            r == assoc_of(s@),
    {
        if eq_str(s, "binl") || eq_str(s, "bin") {
            Some(AssocType::LeftAssociativeBinary)
        } else if eq_str(s, "binr") {
            Some(AssocType::RightAssociativeBinary)
        } else if eq_str(s, "conj") {
            Some(AssocType::Conjunctive)
        } else if eq_str(s, "pwconj") {
            Some(AssocType::PairwiseConjunctive)
        } else if eq_str(s, "pre") {
            Some(AssocType::Prenex)
        } else {
            None
        }
    }
}

/// The level of understanding that a precondition or an objective speaks of.
#[derive(Copy, Clone, Debug, PartialEq, Eq, Structural)]
pub enum CognitiveDimension {
    Remember,
    Understand,
    Apply,
    Analyze,
    Evaluate,
    Create,
}

/// The dimension that a keyword names.
pub open spec fn dimension_of(s: Seq<u8>) -> Option<CognitiveDimension> {
    if s == lit("remember") {
        Some(CognitiveDimension::Remember)
    } else if s == lit("understand") {
        Some(CognitiveDimension::Understand)
    } else if s == lit("apply") {
        Some(CognitiveDimension::Apply)
    } else if s == lit("analyze") || s == lit("analyse") {
        Some(CognitiveDimension::Analyze)
    } else if s == lit("evaluate") {
        Some(CognitiveDimension::Evaluate)
    } else if s == lit("create") {
        Some(CognitiveDimension::Create)
    } else {
        None
    }
}

impl CognitiveDimension {
    /// Reads a dimension keyword.
    pub fn from_str(s: &[u8]) -> (r: Option<CognitiveDimension>)
        ensures
            r == dimension_of(s@),
    {
        if eq_str(s, "remember") {
            Some(CognitiveDimension::Remember)
        } else if eq_str(s, "understand") {
            Some(CognitiveDimension::Understand)
        } else if eq_str(s, "apply") {
            Some(CognitiveDimension::Apply)
        } else if eq_str(s, "analyze") || eq_str(s, "analyse") {
            Some(CognitiveDimension::Analyze)
        } else if eq_str(s, "evaluate") {
            Some(CognitiveDimension::Evaluate)
        } else if eq_str(s, "create") {
            Some(CognitiveDimension::Create)
        } else {
            None
        }
    }
}

/// The modes of the arguments that a symbol takes: a number of at most 255
/// stands for so many arguments passed normally; otherwise every argument
/// has its mode letter.
pub open spec fn arity_of(s: Seq<u8>) -> Option<Seq<ArgMode>> {
    if is_digits(s) && decimal(s) <= 255 {
        Some(Seq::new(decimal(s), |i: int| ArgMode::Normal))
    } else {
        modes_of(s)
    }
}

/// Reads the modes of the arguments that a symbol takes.
pub fn parse_arity(s: &[u8]) -> (r: Option<Vec<ArgMode>>)
    ensures
        match r {
            Some(v) => arity_of(s@) == Some(v@),
            None => arity_of(s@) is None,
        },
{
    match parse_decimal(s, 255) {
        Some(n) => {
            let mut v: Vec<ArgMode> = Vec::new();
            let mut i: u64 = 0;
            while i < n
                invariant
                    i <= n,
                    v@ == Seq::new(i as nat, |k: int| ArgMode::Normal),
                decreases n - i,
            {
                v.push(ArgMode::Normal);
                i += 1;
                assert(v@ =~= Seq::new(i as nat, |k: int| ArgMode::Normal));
            }
            Some(v)
        },
        None => parse_modes(s),
    }
}

/// The modes that the letters of `s` name, one letter each.
pub open spec fn modes_of(s: Seq<u8>) -> Option<Seq<ArgMode>>
    decreases s.len(),
{
    if s.len() == 0 {
        Some(Seq::<ArgMode>::empty())
    } else {
        match (modes_of(s.drop_last()), mode_of(s.last())) {
            (Some(a), Some(m)) => Some(a.push(m)),
            _ => None,
        }
    }
}

/// Reads one mode per letter.
pub fn parse_modes(s: &[u8]) -> (r: Option<Vec<ArgMode>>)
    ensures
        match r {
            Some(v) => modes_of(s@) == Some(v@),
            None => modes_of(s@) is None,
        },
{
    let mut v: Vec<ArgMode> = Vec::new();
    let mut i: usize = 0;
    assert(s@.take(0) =~= Seq::<u8>::empty());
    while i < s.len()
        invariant
            i <= s.len(),
            modes_of(s@.take(i as int)) == Some(v@),
        decreases s.len() - i,
    {
        assert(s@.take(i + 1).drop_last() == s@.take(i as int));
        assert(s@.take(i + 1).last() == s@[i as int]);
        match ArgMode::from_byte(s[i]) {
            Some(m) => {
                v.push(m);
            },
            None => {
                proof {
                    lemma_arity_prefix(s@, i + 1);
                }
                return None;
            },
        }
        i += 1;
    }
    assert(s@.take(s.len() as int) == s@);
    Some(v)
}

/// A string has an arity only if every prefix of it has one.
pub proof fn lemma_arity_prefix(s: Seq<u8>, k: int)
    requires
        0 <= k <= s.len(),
        modes_of(s.take(k)) is None,
    ensures
        modes_of(s) is None,
    decreases s.len() - k,
{
    if k < s.len() {
        assert(s.take(k + 1).drop_last() == s.take(k));
        lemma_arity_prefix(s, k + 1);
    } else {
        assert(s.take(k) == s);
    }
}

/// One node of a term in prefix form.
#[derive(Clone, Debug, PartialEq, Eq)]
pub enum TermNode {
    /// A reference to a symbol or a module.
    Symbol(Uri),
    /// A reference to a declared variable.
    Variable(Uri),
    /// A reference to a variable that is only named.
    Name(Vec<u8>),
    /// An application; the head and then `args` arguments follow.
    Application { args: usize },
    /// The marker of the argument that follows.
    Argument(OpenArg),
    /// A labelled term; `parts` terms (its type, its definiens) follow.
    Label { name: Vec<u8>, parts: usize },
    /// The markup at a range of the document, taken literally.
    Raw(DocumentRange),
}

/// One node of a term as mathematical data.
pub enum TermNodeView {
    Symbol(UriView),
    Variable(UriView),
    Name(Seq<u8>),
    Application { args: usize },
    Argument(OpenArg),
    Label { name: Seq<u8>, parts: usize },
    Raw(DocumentRange),
}

impl View for TermNode {
    type V = TermNodeView;

    open spec fn view(&self) -> TermNodeView {
        match self {
            TermNode::Symbol(u) => TermNodeView::Symbol(u@),
            TermNode::Variable(u) => TermNodeView::Variable(u@),
            TermNode::Name(n) => TermNodeView::Name(n@),
            TermNode::Application { args } => TermNodeView::Application { args: *args },
            TermNode::Argument(a) => TermNodeView::Argument(*a),
            TermNode::Label { name, parts } => TermNodeView::Label { name: name@, parts: *parts },
            TermNode::Raw(r) => TermNodeView::Raw(*r),
        }
    }
}

impl TermNode {
    /// An identical value.
    pub fn copy(&self) -> (r: TermNode)
        ensures
            r@ == self@,
    {
        match self {
            TermNode::Symbol(u) => TermNode::Symbol(u.copy()),
            TermNode::Variable(u) => TermNode::Variable(u.copy()),
            TermNode::Name(n) => TermNode::Name(copy_bytes(n.as_slice())),
            TermNode::Application { args } => TermNode::Application { args: *args },
            TermNode::Argument(a) => TermNode::Argument(*a),
            TermNode::Label { name, parts } => TermNode::Label {
                name: copy_bytes(name.as_slice()),
                parts: *parts,
            },
            TermNode::Raw(r) => TermNode::Raw(*r),
        }
    }
}

/// A term in prefix form.
#[derive(Clone, Debug, PartialEq, Eq)]
pub struct Term {
    pub nodes: Vec<TermNode>,
}

/// A term as mathematical data.
pub type TermSeq = Seq<TermNodeView>;

impl View for Term {
    type V = TermSeq;

    open spec fn view(&self) -> TermSeq {
        Seq::new(self.nodes@.len(), |i: int| self.nodes@[i]@)
    }
}

impl Term {
    /// The term that consists of one node.
    pub fn leaf(node: TermNode) -> (r: Term)
        ensures
            r@ == seq![node@],
    {
        let mut nodes: Vec<TermNode> = Vec::new();
        nodes.push(node);
        let r = Term { nodes };
        assert(r@ =~= seq![node@]);
        r
    }

    /// The empty sequence of nodes, to which terms are appended.
    pub fn empty() -> (r: Term)
        ensures
            r@ == Seq::<TermNodeView>::empty(),
    {
        let r = Term { nodes: Vec::new() };
        assert(r@ =~= Seq::<TermNodeView>::empty());
        r
    }

    /// Appends one node.
    pub fn push(&mut self, node: TermNode)
        ensures
            final(self)@ == old(self)@.push(node@),
    {
        self.nodes.push(node);
        assert(self@ =~= old(self)@.push(node@));
    }

    /// Appends the nodes of `other`.
    pub fn append(&mut self, other: &Term)
        ensures
            final(self)@ == old(self)@ + other@,
    {
        let mut i: usize = 0;
        assert(self@ =~= old(self)@ + other@.take(0));
        while i < other.nodes.len()
            invariant
                i <= other.nodes.len(),
                self@ == old(self)@ + other@.take(i as int),
            decreases other.nodes.len() - i,
        {
            let ghost before = self@;
            self.nodes.push(other.nodes[i].copy());
            assert(self@ =~= before.push(other@[i as int]));
            assert(other@.take(i + 1) =~= other@.take(i as int).push(other@[i as int]));
            i += 1;
        }
        assert(other@.take(other@.len() as int) =~= other@);
    }

    /// An identical value.
    pub fn copy(&self) -> (r: Term)
        ensures
            r@ == self@,
    {
        let mut r = Term::empty();
        r.append(self);
        r
    }
}

} // verus!
