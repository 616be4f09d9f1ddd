//! The rules of the reserved attributes.
//!
//! A rule reads the attributes of an element that is about to be appended,
//! may consume some of them, may change the state of the extraction, and
//! opens at most one semantic element on the node. A rule never aborts the
//! extraction: what it cannot read it records as an error.

use vstd::prelude::*;
use crate::attributes::{AttrSeq, Attributes};
use crate::errors::{ErrorView, SHTMLError};
use crate::getters::{
    bool_spec, document_spec, drop_spec, get, get_bool, get_document_uri, get_id, get_list,
    get_owned, get_section_level, get_spec, get_symbol_uri, invalid, language_spec, level_spec,
    list_of, list_spec, module_spec, remove, symbol_spec, take_bool, take_language, take_module_uri,
    tolerate, tolerated, uri_result,
};
use crate::keys::SHTMLKey;
use crate::open::{
    content_of, opt_uri, scope_of, uris_view, ElementView, OpenSHTMLElement, OpenTerm, OpenTermView,
};
use crate::paragraphs::ParagraphKind;
use crate::queue::{kept, queue_items, queue_retain, RuleQueue};
use crate::resolve::{element_of, module_of, symbol_as_module_of, symbol_of};
use crate::sections::{DocumentRange, SectionLevel};
use crate::state::{ExtractorState, FrameView, ScopeKind, StateView};
use crate::terms::{
    arg_of, arity_of, assoc_of, dimension_of, parse_arity, term_kind_of, ArgMode, AssocType,
    CognitiveDimension, OpenArg, OpenTermKind, PreVar, PreVarView, TermNodeView, VarOrSym,
    VarOrSymView,
};
use crate::text::{
    copy_bytes, copy_list, copy_opt, integer64, lit, opt_bytes, parse_i64, pieces, split, trim,
    trimmed, views,
};
use crate::uris::{Language, Uri, UriKind, UriView};

verus! {

/// What a rule leaves behind: the state, the attributes, and the element it opened.
pub struct Outcome {
    pub state: StateView,
    pub attrs: AttrSeq,
    pub element: Option<ElementView>,
}

/// The view of an optional element.
pub open spec fn opt_element(o: Option<OpenSHTMLElement>) -> Option<ElementView> {
    match o {
        Some(e) => Some(e@),
        None => None,
    }
}

/// The outcome in which the rule failed with `e`.
pub open spec fn failed(s: StateView, a: AttrSeq, e: ErrorView) -> Outcome {
    Outcome { state: s.with_error(e), attrs: a, element: None }
}

/// The outcome in which the rule opened `element`.
pub open spec fn opened(s: StateView, a: AttrSeq, element: ElementView) -> Outcome {
    Outcome { state: s, attrs: a, element: Some(element) }
}

/// The value of a result, if it has one.
pub open spec fn ok_uri(r: Result<UriView, ErrorView>) -> Option<UriView> {
    match r {
        Ok(u) => Some(u),
        Err(_) => None,
    }
}

/// The state after an optional identifier was read.
pub open spec fn after_optional(s: StateView, r: Result<UriView, ErrorView>) -> StateView {
    match r {
        Ok(_) => s,
        Err(e) => tolerate(s, e),
    }
}

// ----- markers -----

/// The rule of an attribute that only accompanies others: nothing happens.
pub fn no_op(state: &mut ExtractorState, attrs: &mut Attributes) -> (r: Option<OpenSHTMLElement>)
    ensures
        r is None,
        final(state)@ == old(state)@,
        final(attrs)@ == old(attrs)@,
        old(state).wf() ==> final(state).wf(),
        old(attrs).wf() ==> final(attrs).wf(),
        final(state)@.diagnostics.len() >= old(state)@.diagnostics.len(),
        final(state)@.narrative.len() == old(state)@.narrative.len() + scope_of(opt_element(r)),
        final(state)@.content.len() == old(state)@.content.len() + content_of(opt_element(r)),
{
    None
}

/// What the rule for whether the element is invisible leaves behind.
pub open spec fn rule_invisible(s: StateView, a: AttrSeq) -> Outcome {
    Outcome {
        state: s,
        attrs: drop_spec(a, SHTMLKey::Invisible),
        element: if bool_spec(a, SHTMLKey::Invisible) {
            Some(ElementView::Invisible)
        } else {
            None
        },
    }
}

/// The element is invisible where the attribute says `true`; the attribute is consumed.
pub fn invisible(state: &mut ExtractorState, attrs: &mut Attributes) -> (r: Option<OpenSHTMLElement>)
    ensures
        (Outcome { state: final(state)@, attrs: final(attrs)@, element: opt_element(r) })
            == rule_invisible(old(state)@, old(attrs)@),
        old(attrs).wf() ==> final(attrs).wf(),
        old(state).wf() ==> final(state).wf(),
        final(state)@.diagnostics.len() >= old(state)@.diagnostics.len(),
        final(state)@.narrative.len() == old(state)@.narrative.len() + scope_of(opt_element(r)),
        final(state)@.content.len() == old(state)@.content.len() + content_of(opt_element(r)),
{
    if take_bool(attrs, SHTMLKey::Invisible) {
        Some(OpenSHTMLElement::Invisible)
    } else {
        None
    }
}

/// What the rule for the level of the sections that follow leaves behind.
pub open spec fn rule_setsectionlevel(s: StateView, a: AttrSeq) -> Outcome {
    match level_spec(a, SHTMLKey::SetSectionLevel) {
        Ok(l) => opened(s, a, ElementView::SetSectionLevel(l)),
        Err(e) => failed(s, a, e),
    }
}

/// Sets the level of the sections that follow.
pub fn setsectionlevel(state: &mut ExtractorState, attrs: &mut Attributes) -> (r: Option<OpenSHTMLElement>)
    ensures
        (Outcome { state: final(state)@, attrs: final(attrs)@, element: opt_element(r) })
            == rule_setsectionlevel(old(state)@, old(attrs)@),
        old(state).wf() ==> final(state).wf(),
        old(attrs).wf() ==> final(attrs).wf(),
        final(state)@.diagnostics.len() >= old(state)@.diagnostics.len(),
        final(state)@.narrative.len() == old(state)@.narrative.len() + scope_of(opt_element(r)),
        final(state)@.content.len() == old(state)@.content.len() + content_of(opt_element(r)),
{
    match get_section_level(attrs, SHTMLKey::SetSectionLevel) {
        Ok(l) => Some(OpenSHTMLElement::SetSectionLevel(l)),
        Err(e) => {
            state.add_error(e);
            None
        },
    }
}

/// What the rule for an import leaves behind.
pub open spec fn rule_importmodule(s: StateView, a: AttrSeq) -> Outcome {
    match module_spec(s, a, SHTMLKey::ImportModule) {
        Ok(u) => opened(s, drop_spec(a, SHTMLKey::ImportModule), ElementView::ImportModule(u)),
        Err(e) => failed(s, drop_spec(a, SHTMLKey::ImportModule), e),
    }
}

/// Imports a module into the enclosing one.
pub fn importmodule(state: &mut ExtractorState, attrs: &mut Attributes) -> (r: Option<OpenSHTMLElement>)
    ensures
        (Outcome { state: final(state)@, attrs: final(attrs)@, element: opt_element(r) })
            == rule_importmodule(old(state)@, old(attrs)@),
        old(attrs).wf() ==> final(attrs).wf(),
        old(state).wf() ==> final(state).wf(),
        final(state)@.diagnostics.len() >= old(state)@.diagnostics.len(),
        final(state)@.narrative.len() == old(state)@.narrative.len() + scope_of(opt_element(r)),
        final(state)@.content.len() == old(state)@.content.len() + content_of(opt_element(r)),
{
    match take_module_uri(attrs, SHTMLKey::ImportModule, state) {
        Ok(u) => Some(OpenSHTMLElement::ImportModule(u)),
        Err(e) => {
            state.add_error(e);
            None
        },
    }
}

/// What the rule for the use of a module leaves behind.
pub open spec fn rule_usemodule(s: StateView, a: AttrSeq) -> Outcome {
    match module_spec(s, a, SHTMLKey::UseModule) {
        Ok(u) => opened(s, drop_spec(a, SHTMLKey::UseModule), ElementView::UseModule(u)),
        Err(e) => failed(s, drop_spec(a, SHTMLKey::UseModule), e),
    }
}

/// Uses a module in what follows.
pub fn usemodule(state: &mut ExtractorState, attrs: &mut Attributes) -> (r: Option<OpenSHTMLElement>)
    ensures
        (Outcome { state: final(state)@, attrs: final(attrs)@, element: opt_element(r) })
            == rule_usemodule(old(state)@, old(attrs)@),
        old(attrs).wf() ==> final(attrs).wf(),
        old(state).wf() ==> final(state).wf(),
        final(state)@.diagnostics.len() >= old(state)@.diagnostics.len(),
        final(state)@.narrative.len() == old(state)@.narrative.len() + scope_of(opt_element(r)),
        final(state)@.content.len() == old(state)@.content.len() + content_of(opt_element(r)),
{
    match take_module_uri(attrs, SHTMLKey::UseModule, state) {
        Ok(u) => Some(OpenSHTMLElement::UseModule(u)),
        Err(e) => {
            state.add_error(e);
            None
        },
    }
}

// ----- content scopes -----

/// The state with the content scope `uri` and its narrative scope opened.
pub open spec fn scoped(s: StateView, uri: UriView) -> StateView {
    s.with_content(uri).with_narrative(ScopeKind::Module, None, Seq::<UriView>::empty())
}

/// What the rule for a module leaves behind.
pub open spec fn rule_module(s: StateView, a: AttrSeq) -> Outcome {
    let a1 = drop_spec(a, SHTMLKey::Module);
    match module_spec(s, a, SHTMLKey::Module) {
        Err(e) => failed(s, a1, e),
        Ok(uri) => {
            let a2 = drop_spec(a1, SHTMLKey::Language);
            let meta = module_spec(s, a2, SHTMLKey::Metatheory);
            let a3 = drop_spec(a2, SHTMLKey::Metatheory);
            let s1 = after_optional(s, meta);
            let signature = language_spec(a3, SHTMLKey::Signature);
            let a4 = drop_spec(a3, SHTMLKey::Signature);
            let s2 = match signature {
                Ok(_) => s1,
                Err(e) => tolerate(s1, e),
            };
            opened(
                scoped(s2, uri),
                a4,
                ElementView::Module {
                    uri,
                    meta: ok_uri(meta),
                    signature: match signature {
                        Ok(l) => Some(l),
                        Err(_) => None,
                    },
                },
            )
        },
    }
}

/// Opens a module: a content scope and the narrative scope that goes with
/// it. The attributes of the module, of its language, of its meta theory and
/// of its signature are consumed.
pub fn module(state: &mut ExtractorState, attrs: &mut Attributes) -> (r: Option<OpenSHTMLElement>)
    ensures
        (Outcome { state: final(state)@, attrs: final(attrs)@, element: opt_element(r) })
            == rule_module(old(state)@, old(attrs)@),
        old(attrs).wf() ==> final(attrs).wf(),
        old(state).wf() ==> final(state).wf(),
        final(state)@.diagnostics.len() >= old(state)@.diagnostics.len(),
        final(state)@.narrative.len() == old(state)@.narrative.len() + scope_of(opt_element(r)),
        final(state)@.content.len() == old(state)@.content.len() + content_of(opt_element(r)),
{
    let uri = match take_module_uri(attrs, SHTMLKey::Module, state) {
        Ok(u) => u,
        Err(e) => {
            state.add_error(e);
            return None;
        },
    };
    let _ = take_language(attrs, SHTMLKey::Language);
    let meta = match take_module_uri(attrs, SHTMLKey::Metatheory, state) {
        Ok(u) => Some(u),
        Err(e) => {
            tolerated(state, e);
            None
        },
    };
    let signature = match take_language(attrs, SHTMLKey::Signature) {
        Ok(l) => Some(l),
        Err(e) => {
            tolerated(state, e);
            None
        },
    };
    state.open_content(uri.copy());
    state.open_narrative(None);
    Some(OpenSHTMLElement::Module { uri, meta, signature })
}

/// What the rule for a mathematical structure leaves behind.
pub open spec fn rule_mathstructure(s: StateView, a: AttrSeq) -> Outcome {
    let a1 = drop_spec(a, SHTMLKey::MathStructure);
    match module_spec(s, a, SHTMLKey::MathStructure) {
        Err(e) => failed(s, a1, e),
        Ok(m) => match m.as_symbol() {
            None => failed(s, a1, invalid(SHTMLKey::MathStructure, None)),
            Some(uri) => opened(
                scoped(s, uri.as_module()),
                drop_spec(a1, SHTMLKey::Macroname),
                ElementView::MathStructure { uri, macroname: get_spec(a1, SHTMLKey::Macroname) },
            ),
        },
    }
}

/// Opens a mathematical structure: a symbol that is also a module.
pub fn mathstructure(state: &mut ExtractorState, attrs: &mut Attributes) -> (r: Option<OpenSHTMLElement>)
    ensures
        (Outcome { state: final(state)@, attrs: final(attrs)@, element: opt_element(r) })
            == rule_mathstructure(old(state)@, old(attrs)@),
        old(attrs).wf() ==> final(attrs).wf(),
        old(state).wf() ==> final(state).wf(),
        final(state)@.diagnostics.len() >= old(state)@.diagnostics.len(),
        final(state)@.narrative.len() == old(state)@.narrative.len() + scope_of(opt_element(r)),
        final(state)@.content.len() == old(state)@.content.len() + content_of(opt_element(r)),
{
    let m = match take_module_uri(attrs, SHTMLKey::MathStructure, state) {
        Ok(u) => u,
        Err(e) => {
            state.add_error(e);
            return None;
        },
    };
    let uri = match m.into_symbol() {
        Some(u) => u,
        None => {
            state.add_error(SHTMLError::InvalidKeyFor(SHTMLKey::MathStructure, None));
            return None;
        },
    };
    let macroname = remove(attrs, SHTMLKey::Macroname);
    state.open_content(uri.into_module());
    state.open_narrative(None);
    Some(OpenSHTMLElement::MathStructure { uri, macroname })
}

/// What the rule for a morphism leaves behind.
pub open spec fn rule_morphism(s: StateView, a: AttrSeq) -> Outcome {
    let a1 = drop_spec(a, SHTMLKey::Morphism);
    match get_spec(a, SHTMLKey::Morphism) {
        None => failed(s, a1, invalid(SHTMLKey::Morphism, None)),
        Some(v) => match symbol_as_module_of(s.archives, v, s.document.language) {
            None => failed(s, a1, invalid(SHTMLKey::Morphism, Some(v))),
            Some(m) => match m.as_symbol() {
                None => failed(s, a1, invalid(SHTMLKey::Morphism, Some(v))),
                Some(uri) => {
                    let a2 = drop_spec(a1, SHTMLKey::MorphismDomain);
                    match module_spec(s, a1, SHTMLKey::MorphismDomain) {
                        Err(e) => failed(s, a2, e),
                        Ok(domain) => opened(
                            scoped(s, uri.as_module()),
                            drop_spec(a2, SHTMLKey::MorphismTotal),
                            ElementView::Morphism {
                                uri: Some(uri),
                                domain,
                                total: bool_spec(a2, SHTMLKey::MorphismTotal),
                            },
                        ),
                    }
                },
            },
        },
    }
}

/// Opens a morphism from the module named as its domain.
pub fn morphism(state: &mut ExtractorState, attrs: &mut Attributes) -> (r: Option<OpenSHTMLElement>)
    ensures
        (Outcome { state: final(state)@, attrs: final(attrs)@, element: opt_element(r) })
            == rule_morphism(old(state)@, old(attrs)@),
        old(attrs).wf() ==> final(attrs).wf(),
        old(state).wf() ==> final(state).wf(),
        final(state)@.diagnostics.len() >= old(state)@.diagnostics.len(),
        final(state)@.narrative.len() == old(state)@.narrative.len() + scope_of(opt_element(r)),
        final(state)@.content.len() == old(state)@.content.len() + content_of(opt_element(r)),
{
    let v = match remove(attrs, SHTMLKey::Morphism) {
        Some(v) => v,
        None => {
            state.add_error(SHTMLError::InvalidKeyFor(SHTMLKey::Morphism, None));
            return None;
        },
    };
    let m = match state.get_sym_uri_as_mod(v.as_slice()) {
        Some(m) => m,
        None => {
            state.add_error(SHTMLError::InvalidKeyFor(SHTMLKey::Morphism, Some(v)));
            return None;
        },
    };
    let uri = match m.into_symbol() {
        Some(u) => u,
        None => {
            state.add_error(SHTMLError::InvalidKeyFor(SHTMLKey::Morphism, Some(v)));
            return None;
        },
    };
    let domain = match take_module_uri(attrs, SHTMLKey::MorphismDomain, state) {
        Ok(u) => u,
        Err(e) => {
            state.add_error(e);
            return None;
        },
    };
    let total = take_bool(attrs, SHTMLKey::MorphismTotal);
    state.open_content(uri.into_module());
    state.open_narrative(None);
    Some(OpenSHTMLElement::Morphism { uri: Some(uri), domain, total })
}

/// What the rule for an assignment leaves behind.
pub open spec fn rule_assign(s: StateView, a: AttrSeq) -> Outcome {
    match symbol_spec(s, a, SHTMLKey::Assign) {
        Err(e) => failed(s, a, e),
        Ok(u) => opened(s.with_frame(FrameView::Complex { term: None }), a, ElementView::Assign(u)),
    }
}

/// Assigns a term to a symbol of the domain of the enclosing morphism.
pub fn assign(state: &mut ExtractorState, attrs: &mut Attributes) -> (r: Option<OpenSHTMLElement>)
    ensures
        (Outcome { state: final(state)@, attrs: final(attrs)@, element: opt_element(r) })
            == rule_assign(old(state)@, old(attrs)@),
        old(state).wf() ==> final(state).wf(),
        old(attrs).wf() ==> final(attrs).wf(),
        final(state)@.diagnostics.len() >= old(state)@.diagnostics.len(),
        final(state)@.narrative.len() == old(state)@.narrative.len() + scope_of(opt_element(r)),
        final(state)@.content.len() == old(state)@.content.len() + content_of(opt_element(r)),
{
    match get_symbol_uri(attrs, SHTMLKey::Assign, state) {
        Ok(u) => {
            state.open_complex_term();
            Some(OpenSHTMLElement::Assign(u))
        },
        Err(e) => {
            state.add_error(e);
            None
        },
    }
}

// ----- narrative scopes -----

/// The identifier of the element and the state after it was read or generated.
pub open spec fn identified(s: StateView, a: AttrSeq, prefix: Seq<u8>) -> (Seq<u8>, StateView) {
    match get_spec(a, SHTMLKey::Id) {
        Some(v) => (v, s),
        None => (s.fresh_id(prefix), s.after_id()),
    }
}

/// What the rule for a section leaves behind.
pub open spec fn rule_section(s: StateView, a: AttrSeq) -> Outcome {
    match level_spec(a, SHTMLKey::Section) {
        Err(e) => failed(s, a, e),
        Ok(lvl) => {
            let (id, s1) = identified(s, a, lit("section"));
            let uri = s1.child_uri(id);
            opened(
                s1.with_narrative(ScopeKind::Section, Some(uri), Seq::<UriView>::empty()),
                a,
                ElementView::Section { lvl, uri },
            )
        },
    }
}

/// Opens a section of the level that the attribute gives.
pub fn section(state: &mut ExtractorState, attrs: &mut Attributes) -> (r: Option<OpenSHTMLElement>)
    requires
        old(state).wf(),
    ensures
        (Outcome { state: final(state)@, attrs: final(attrs)@, element: opt_element(r) })
            == rule_section(old(state)@, old(attrs)@),
        final(state).wf(),
        old(attrs).wf() ==> final(attrs).wf(),
        final(state)@.diagnostics.len() >= old(state)@.diagnostics.len(),
        final(state)@.narrative.len() == old(state)@.narrative.len() + scope_of(opt_element(r)),
        final(state)@.content.len() == old(state)@.content.len() + content_of(opt_element(r)),
{
    let lvl = match get_section_level(attrs, SHTMLKey::Section) {
        Ok(l) => l,
        Err(e) => {
            state.add_error(e);
            return None;
        },
    };
    let id = get_id(attrs, state, "section".as_bytes());
    let uri = state.child_uri(id.as_slice());
    state.open_section(uri.copy());
    Some(OpenSHTMLElement::Section { lvl, uri })
}

/// The symbols that the first `k` names name, and the state after those that
/// name none were reported.
pub open spec fn fors_of(s: StateView, names: Seq<Seq<u8>>, k: int) -> (StateView, Seq<UriView>)
    decreases k,
{
    if k <= 0 {
        (s, Seq::<UriView>::empty())
    } else {
        let (s1, us) = fors_of(s, names, k - 1);
        match symbol_of(s.archives, names[k - 1], s.document.language) {
            Some(u) => (s1, us.push(u)),
            None => (s1.with_error(invalid(SHTMLKey::Fors, Some(names[k - 1]))), us),
        }
    }
}

/// Reporting errors changes neither the archives nor the document.
pub proof fn lemma_fors_of(s: StateView, names: Seq<Seq<u8>>, k: int)
    ensures
        fors_of(s, names, k).0.archives == s.archives,
        fors_of(s, names, k).0.document == s.document,
        fors_of(s, names, k).0.narrative == s.narrative,
        fors_of(s, names, k).0.counter == s.counter,
        fors_of(s, names, k).0.cursor == s.cursor,
        fors_of(s, names, k).0.content == s.content,
    decreases k,
{
    if k > 0 {
        lemma_fors_of(s, names, k - 1);
    }
}

/// What the rule for a logical paragraph of kind `kind` leaves behind.
pub open spec fn rule_paragraph(s: StateView, a: AttrSeq, kind: ParagraphKind) -> Outcome {
    let (id, s1) = identified(s, a, kind.name());
    let uri = s1.child_uri(id);
    let names = list_spec(a, SHTMLKey::Fors);
    let (s2, fors) = fors_of(s1, names, names.len() as int);
    opened(
        s2.with_narrative(ScopeKind::Paragraph, Some(uri), fors),
        a,
        ElementView::Paragraph {
            kind,
            inline: bool_spec(a, SHTMLKey::Inline),
            styles: list_spec(a, SHTMLKey::Styles),
            uri,
            fors,
        },
    )
}

/// Opens a logical paragraph of kind `kind`. The symbols that the paragraph
/// is about are resolved; a name that names no symbol is reported.
pub fn do_paragraph(state: &mut ExtractorState, attrs: &mut Attributes, kind: ParagraphKind) -> (r: Option<
    OpenSHTMLElement,
>)
    requires
        old(state).wf(),
    ensures
        (Outcome { state: final(state)@, attrs: final(attrs)@, element: opt_element(r) })
            == rule_paragraph(old(state)@, old(attrs)@, kind),
        final(state).wf(),
        old(attrs).wf() ==> final(attrs).wf(),
        final(state)@.diagnostics.len() >= old(state)@.diagnostics.len(),
        final(state)@.narrative.len() == old(state)@.narrative.len() + scope_of(opt_element(r)),
        final(state)@.content.len() == old(state)@.content.len() + content_of(opt_element(r)),
{
    let id = get_id(attrs, state, kind.as_str().as_bytes());
    let uri = state.child_uri(id.as_slice());
    let inline = get_bool(attrs, SHTMLKey::Inline);
    let names = get_list(attrs, SHTMLKey::Fors);
    let ghost s1 = state@;
    let ghost ns = views(names@);
    let mut fors: Vec<Uri> = Vec::new();
    let mut i: usize = 0;
    assert(uris_view(fors@) =~= Seq::<UriView>::empty());
    while i < names.len()
        invariant
            i <= names.len(),
            ns == views(names@),
            state@.diagnostics.len() >= s1.diagnostics.len(),
            state@.narrative == s1.narrative,
            state@.content == s1.content,
            (state@, uris_view(fors@)) == fors_of(s1, ns, i as int),
        decreases names.len() - i,
    {
        proof {
            lemma_fors_of(s1, ns, i as int);
            assert(ns[i as int] == names@[i as int]@);
        }
        let ghost before = uris_view(fors@);
        match state.get_sym_uri(names[i].as_slice()) {
            Some(u) => {
                fors.push(u);
                assert(uris_view(fors@) =~= before.push(u@));
            },
            None => {
                state.add_error(
                    SHTMLError::InvalidKeyFor(SHTMLKey::Fors, Some(copy_bytes(names[i].as_slice()))),
                );
            },
        }
        i += 1;
    }
    proof {
        lemma_fors_of(s1, ns, ns.len() as int);
    }
    let styles = get_list(attrs, SHTMLKey::Styles);
    state.open_paragraph(uri.copy(), crate::open::copy_uris(&fors));
    Some(OpenSHTMLElement::Paragraph { kind, inline, styles, uri, fors })
}

/// Opens a definition.
pub fn definition(state: &mut ExtractorState, attrs: &mut Attributes) -> (r: Option<OpenSHTMLElement>)
    requires
        old(state).wf(),
    ensures
        (Outcome { state: final(state)@, attrs: final(attrs)@, element: opt_element(r) })
            == rule_paragraph(old(state)@, old(attrs)@, ParagraphKind::Definition),
        final(state).wf(),
        old(attrs).wf() ==> final(attrs).wf(),
        final(state)@.diagnostics.len() >= old(state)@.diagnostics.len(),
        final(state)@.narrative.len() == old(state)@.narrative.len() + scope_of(opt_element(r)),
        final(state)@.content.len() == old(state)@.content.len() + content_of(opt_element(r)),
{
    do_paragraph(state, attrs, ParagraphKind::Definition)
}

/// Opens a plain paragraph.
pub fn paragraph(state: &mut ExtractorState, attrs: &mut Attributes) -> (r: Option<OpenSHTMLElement>)
    requires
        old(state).wf(),
    ensures
        (Outcome { state: final(state)@, attrs: final(attrs)@, element: opt_element(r) })
            == rule_paragraph(old(state)@, old(attrs)@, ParagraphKind::Paragraph),
        final(state).wf(),
        old(attrs).wf() ==> final(attrs).wf(),
        final(state)@.diagnostics.len() >= old(state)@.diagnostics.len(),
        final(state)@.narrative.len() == old(state)@.narrative.len() + scope_of(opt_element(r)),
        final(state)@.content.len() == old(state)@.content.len() + content_of(opt_element(r)),
{
    do_paragraph(state, attrs, ParagraphKind::Paragraph)
}

/// Opens an assertion.
pub fn assertion(state: &mut ExtractorState, attrs: &mut Attributes) -> (r: Option<OpenSHTMLElement>)
    requires
        old(state).wf(),
    ensures
        (Outcome { state: final(state)@, attrs: final(attrs)@, element: opt_element(r) })
            == rule_paragraph(old(state)@, old(attrs)@, ParagraphKind::Assertion),
        final(state).wf(),
        old(attrs).wf() ==> final(attrs).wf(),
        final(state)@.diagnostics.len() >= old(state)@.diagnostics.len(),
        final(state)@.narrative.len() == old(state)@.narrative.len() + scope_of(opt_element(r)),
        final(state)@.content.len() == old(state)@.content.len() + content_of(opt_element(r)),
{
    do_paragraph(state, attrs, ParagraphKind::Assertion)
}

/// Opens an example.
pub fn example(state: &mut ExtractorState, attrs: &mut Attributes) -> (r: Option<OpenSHTMLElement>)
    requires
        old(state).wf(),
    ensures
        (Outcome { state: final(state)@, attrs: final(attrs)@, element: opt_element(r) })
            == rule_paragraph(old(state)@, old(attrs)@, ParagraphKind::Example),
        final(state).wf(),
        old(attrs).wf() ==> final(attrs).wf(),
        final(state)@.diagnostics.len() >= old(state)@.diagnostics.len(),
        final(state)@.narrative.len() == old(state)@.narrative.len() + scope_of(opt_element(r)),
        final(state)@.content.len() == old(state)@.content.len() + content_of(opt_element(r)),
{
    do_paragraph(state, attrs, ParagraphKind::Example)
}

/// Opens a proof.
pub fn proof_paragraph(state: &mut ExtractorState, attrs: &mut Attributes) -> (r: Option<OpenSHTMLElement>)
    requires
        old(state).wf(),
    ensures
        (Outcome { state: final(state)@, attrs: final(attrs)@, element: opt_element(r) })
            == rule_paragraph(old(state)@, old(attrs)@, ParagraphKind::Proof),
        final(state).wf(),
        old(attrs).wf() ==> final(attrs).wf(),
        final(state)@.diagnostics.len() >= old(state)@.diagnostics.len(),
        final(state)@.narrative.len() == old(state)@.narrative.len() + scope_of(opt_element(r)),
        final(state)@.content.len() == old(state)@.content.len() + content_of(opt_element(r)),
{
    do_paragraph(state, attrs, ParagraphKind::Proof)
}

/// Opens a proof inside a proof.
pub fn subproof(state: &mut ExtractorState, attrs: &mut Attributes) -> (r: Option<OpenSHTMLElement>)
    requires
        old(state).wf(),
    ensures
        (Outcome { state: final(state)@, attrs: final(attrs)@, element: opt_element(r) })
            == rule_paragraph(old(state)@, old(attrs)@, ParagraphKind::SubProof),
        final(state).wf(),
        old(attrs).wf() ==> final(attrs).wf(),
        final(state)@.diagnostics.len() >= old(state)@.diagnostics.len(),
        final(state)@.narrative.len() == old(state)@.narrative.len() + scope_of(opt_element(r)),
        final(state)@.content.len() == old(state)@.content.len() + content_of(opt_element(r)),
{
    do_paragraph(state, attrs, ParagraphKind::SubProof)
}

/// What the rule for an exercise leaves behind.
pub open spec fn rule_exercise(s: StateView, a: AttrSeq, sub_exercise: bool) -> Outcome {
    let (id, s1) = identified(s, a, lit("exercise"));
    let uri = s1.child_uri(id);
    let a1 = drop_spec(a, SHTMLKey::Language);
    opened(
        s1.with_narrative(ScopeKind::Exercise, Some(uri), Seq::<UriView>::empty()),
        a1,
        ElementView::Exercise {
            sub_exercise,
            styles: list_spec(a, SHTMLKey::Styles),
            uri,
            autogradable: bool_spec(a1, SHTMLKey::Autogradable),
            points: get_spec(a1, SHTMLKey::ProblemPoints),
        },
    )
}

/// Opens an exercise, or an exercise inside an exercise.
pub fn do_exercise(state: &mut ExtractorState, attrs: &mut Attributes, sub_exercise: bool) -> (r: Option<
    OpenSHTMLElement,
>)
    requires
        old(state).wf(),
    ensures
        (Outcome { state: final(state)@, attrs: final(attrs)@, element: opt_element(r) })
            == rule_exercise(old(state)@, old(attrs)@, sub_exercise),
        final(state).wf(),
        old(attrs).wf() ==> final(attrs).wf(),
        final(state)@.diagnostics.len() >= old(state)@.diagnostics.len(),
        final(state)@.narrative.len() == old(state)@.narrative.len() + scope_of(opt_element(r)),
        final(state)@.content.len() == old(state)@.content.len() + content_of(opt_element(r)),
{
    let styles = get_list(attrs, SHTMLKey::Styles);
    let id = get_id(attrs, state, "exercise".as_bytes());
    let uri = state.child_uri(id.as_slice());
    let _ = take_language(attrs, SHTMLKey::Language);
    let autogradable = get_bool(attrs, SHTMLKey::Autogradable);
    let points = get_owned(attrs, SHTMLKey::ProblemPoints);
    state.open_exercise(uri.copy());
    Some(OpenSHTMLElement::Exercise { sub_exercise, styles, uri, autogradable, points })
}

/// Opens an exercise.
pub fn exercise(state: &mut ExtractorState, attrs: &mut Attributes) -> (r: Option<OpenSHTMLElement>)
    requires
        old(state).wf(),
    ensures
        (Outcome { state: final(state)@, attrs: final(attrs)@, element: opt_element(r) })
            == rule_exercise(old(state)@, old(attrs)@, false),
        final(state).wf(),
        old(attrs).wf() ==> final(attrs).wf(),
        final(state)@.diagnostics.len() >= old(state)@.diagnostics.len(),
        final(state)@.narrative.len() == old(state)@.narrative.len() + scope_of(opt_element(r)),
        final(state)@.content.len() == old(state)@.content.len() + content_of(opt_element(r)),
{
    do_exercise(state, attrs, false)
}

/// Opens an exercise inside an exercise.
pub fn subexercise(state: &mut ExtractorState, attrs: &mut Attributes) -> (r: Option<OpenSHTMLElement>)
    requires
        old(state).wf(),
    ensures
        (Outcome { state: final(state)@, attrs: final(attrs)@, element: opt_element(r) })
            == rule_exercise(old(state)@, old(attrs)@, true),
        final(state).wf(),
        old(attrs).wf() ==> final(attrs).wf(),
        final(state)@.diagnostics.len() >= old(state)@.diagnostics.len(),
        final(state)@.narrative.len() == old(state)@.narrative.len() + scope_of(opt_element(r)),
        final(state)@.content.len() == old(state)@.content.len() + content_of(opt_element(r)),
{
    do_exercise(state, attrs, true)
}

/// Marks the title of the document.
pub fn doctitle(state: &mut ExtractorState, attrs: &mut Attributes) -> (r: Option<OpenSHTMLElement>)
    ensures
        opt_element(r) == Some(ElementView::Doctitle),
        final(state)@ == old(state)@,
        final(attrs)@ == old(attrs)@,
        old(state).wf() ==> final(state).wf(),
        old(attrs).wf() ==> final(attrs).wf(),
        final(state)@.diagnostics.len() >= old(state)@.diagnostics.len(),
        final(state)@.narrative.len() == old(state)@.narrative.len() + scope_of(opt_element(r)),
        final(state)@.content.len() == old(state)@.content.len() + content_of(opt_element(r)),
{
    Some(OpenSHTMLElement::Doctitle)
}

/// Marks the title of the enclosing section, paragraph or exercise.
pub fn title(state: &mut ExtractorState, attrs: &mut Attributes) -> (r: Option<OpenSHTMLElement>)
    ensures
        opt_element(r) == Some(ElementView::Title),
        final(state)@ == old(state)@,
        final(attrs)@ == old(attrs)@,
        old(state).wf() ==> final(state).wf(),
        old(attrs).wf() ==> final(attrs).wf(),
        final(state)@.diagnostics.len() >= old(state)@.diagnostics.len(),
        final(state)@.narrative.len() == old(state)@.narrative.len() + scope_of(opt_element(r)),
        final(state)@.content.len() == old(state)@.content.len() + content_of(opt_element(r)),
{
    Some(OpenSHTMLElement::Title)
}

/// The dimension under `key`.
pub open spec fn dimension_spec(a: AttrSeq, key: SHTMLKey) -> Result<CognitiveDimension, ErrorView> {
    match get_spec(a, key) {
        None => Err(invalid(key, None)),
        Some(v) => match dimension_of(v) {
            Some(d) => Ok(d),
            None => Err(invalid(key, Some(v))),
        },
    }
}

/// Reads the dimension under `key`.
pub fn get_dimension(attrs: &Attributes, key: SHTMLKey) -> (r: Result<CognitiveDimension, SHTMLError>)
    ensures
        match r {
            Ok(d) => dimension_spec(attrs@, key) == Ok::<CognitiveDimension, ErrorView>(d),
            Err(e) => dimension_spec(attrs@, key) == Err::<CognitiveDimension, ErrorView>(e@),
        },
{
    match get(attrs, key) {
        None => Err(SHTMLError::InvalidKeyFor(key, None)),
        Some(v) => match CognitiveDimension::from_str(v.as_slice()) {
            Some(d) => Ok(d),
            None => Err(SHTMLError::InvalidKeyFor(key, Some(copy_bytes(v.as_slice())))),
        },
    }
}

/// What the rule for a precondition of the current exercise leaves behind.
pub open spec fn rule_precondition(s: StateView, a: AttrSeq) -> Outcome {
    match symbol_spec(s, a, SHTMLKey::PreconditionSymbol) {
        Err(e) => failed(s, a, e),
        Ok(uri) => match dimension_spec(a, SHTMLKey::PreconditionDimension) {
            Err(e) => failed(s, a, e),
            Ok(dimension) => Outcome {
                state: s.with_exercise_note(ElementView::Precondition { uri, dimension }),
                attrs: a,
                element: None,
            },
        },
    }
}

/// States what the current exercise presupposes. Nothing is opened on the node.
pub fn precondition(state: &mut ExtractorState, attrs: &mut Attributes) -> (r: Option<OpenSHTMLElement>)
    ensures
        (Outcome { state: final(state)@, attrs: final(attrs)@, element: opt_element(r) })
            == rule_precondition(old(state)@, old(attrs)@),
        old(state).wf() ==> final(state).wf(),
        old(attrs).wf() ==> final(attrs).wf(),
        final(state)@.diagnostics.len() >= old(state)@.diagnostics.len(),
        final(state)@.narrative.len() == old(state)@.narrative.len() + scope_of(opt_element(r)),
        final(state)@.content.len() == old(state)@.content.len() + content_of(opt_element(r)),
{
    let uri = match get_symbol_uri(attrs, SHTMLKey::PreconditionSymbol, state) {
        Ok(u) => u,
        Err(e) => {
            state.add_error(e);
            return None;
        },
    };
    let dim = match get_dimension(attrs, SHTMLKey::PreconditionDimension) {
        Ok(d) => d,
        Err(e) => {
            state.add_error(e);
            return None;
        },
    };
    state.add_precondition(uri, dim);
    None
}

/// What the rule for an objective of the current exercise leaves behind.
pub open spec fn rule_objective(s: StateView, a: AttrSeq) -> Outcome {
    match symbol_spec(s, a, SHTMLKey::ObjectiveSymbol) {
        Err(e) => failed(s, a, e),
        Ok(uri) => match dimension_spec(a, SHTMLKey::ObjectiveDimension) {
            Err(e) => failed(s, a, e),
            Ok(dimension) => Outcome {
                state: s.with_exercise_note(ElementView::Objective { uri, dimension }),
                attrs: a,
                element: None,
            },
        },
    }
}

/// States what the current exercise aims at. Nothing is opened on the node.
pub fn objective(state: &mut ExtractorState, attrs: &mut Attributes) -> (r: Option<OpenSHTMLElement>)
    ensures
        (Outcome { state: final(state)@, attrs: final(attrs)@, element: opt_element(r) })
            == rule_objective(old(state)@, old(attrs)@),
        old(state).wf() ==> final(state).wf(),
        old(attrs).wf() ==> final(attrs).wf(),
        final(state)@.diagnostics.len() >= old(state)@.diagnostics.len(),
        final(state)@.narrative.len() == old(state)@.narrative.len() + scope_of(opt_element(r)),
        final(state)@.content.len() == old(state)@.content.len() + content_of(opt_element(r)),
{
    let uri = match get_symbol_uri(attrs, SHTMLKey::ObjectiveSymbol, state) {
        Ok(u) => u,
        Err(e) => {
            state.add_error(e);
            return None;
        },
    };
    let dim = match get_dimension(attrs, SHTMLKey::ObjectiveDimension) {
        Ok(d) => d,
        Err(e) => {
            state.add_error(e);
            return None;
        },
    };
    state.add_objective(uri, dim);
    None
}

// ----- declarations -----

/// The associativity that an element announces, and the state after a value
/// that names none was reported.
pub open spec fn assoc_opt(s: StateView, a: AttrSeq) -> (StateView, Option<AssocType>) {
    match get_spec(a, SHTMLKey::AssocType) {
        None => (s, None),
        Some(v) => match assoc_of(v) {
            Some(t) => (s, Some(t)),
            None => (tolerate(s, invalid(SHTMLKey::AssocType, Some(v))), None),
        },
    }
}

/// The arity that an element announces, and the state after a value that
/// gives none was reported.
pub open spec fn arity_opt(s: StateView, a: AttrSeq) -> (StateView, Seq<ArgMode>) {
    match get_spec(a, SHTMLKey::Args) {
        None => (s, Seq::<ArgMode>::empty()),
        Some(v) => match arity_of(v) {
            Some(m) => (s, m),
            None => (tolerate(s, invalid(SHTMLKey::Args, Some(v))), Seq::<ArgMode>::empty()),
        },
    }
}

/// Reads the associativity that an element announces.
pub fn get_assoctype(state: &mut ExtractorState, attrs: &Attributes) -> (r: Option<AssocType>)
    ensures
        (final(state)@, r) == assoc_opt(old(state)@, attrs@),
        final(state)@.diagnostics.len() >= old(state)@.diagnostics.len(),
{
    match get(attrs, SHTMLKey::AssocType) {
        None => None,
        Some(v) => match AssocType::from_str(v.as_slice()) {
            Some(t) => Some(t),
            None => {
                tolerated(state, SHTMLError::InvalidKeyFor(SHTMLKey::AssocType, Some(copy_bytes(v.as_slice()))));
                None
            },
        },
    }
}

/// Reads the arity that an element announces.
pub fn get_arity(state: &mut ExtractorState, attrs: &Attributes) -> (r: Vec<ArgMode>)
    ensures
        (final(state)@, r@) == arity_opt(old(state)@, attrs@),
        final(state)@.diagnostics.len() >= old(state)@.diagnostics.len(),
{
    match get(attrs, SHTMLKey::Args) {
        None => Vec::new(),
        Some(v) => match parse_arity(v.as_slice()) {
            Some(m) => m,
            None => {
                tolerated(state, SHTMLError::InvalidKeyFor(SHTMLKey::Args, Some(copy_bytes(v.as_slice()))));
                Vec::new()
            },
        },
    }
}

/// What the rule for the declaration of a symbol leaves behind.
pub open spec fn rule_symdecl(s: StateView, a: AttrSeq) -> Outcome {
    match symbol_spec(s, a, SHTMLKey::Symdecl) {
        Err(e) => failed(s, a, e),
        Ok(uri) => {
            let (s1, assoctype) = assoc_opt(s, a);
            let (s2, arity) = arity_opt(s1, a);
            opened(
                s2.with_frame(FrameView::Decl { tp: None, df: None }),
                a,
                ElementView::Symdecl {
                    uri,
                    arity,
                    macroname: get_spec(a, SHTMLKey::Macroname),
                    role: list_spec(a, SHTMLKey::Role),
                    assoctype,
                    reordering: get_spec(a, SHTMLKey::ArgumentReordering),
                },
            )
        },
    }
}

/// Opens the declaration of a symbol, which may receive a type and a definiens.
pub fn symdecl(state: &mut ExtractorState, attrs: &mut Attributes) -> (r: Option<OpenSHTMLElement>)
    ensures
        (Outcome { state: final(state)@, attrs: final(attrs)@, element: opt_element(r) })
            == rule_symdecl(old(state)@, old(attrs)@),
        old(state).wf() ==> final(state).wf(),
        old(attrs).wf() ==> final(attrs).wf(),
        final(state)@.diagnostics.len() >= old(state)@.diagnostics.len(),
        final(state)@.narrative.len() == old(state)@.narrative.len() + scope_of(opt_element(r)),
        final(state)@.content.len() == old(state)@.content.len() + content_of(opt_element(r)),
{
    let uri = match get_symbol_uri(attrs, SHTMLKey::Symdecl, state) {
        Ok(u) => u,
        Err(e) => {
            state.add_error(e);
            return None;
        },
    };
    let role = get_list(attrs, SHTMLKey::Role);
    let assoctype = get_assoctype(state, attrs);
    let arity = get_arity(state, attrs);
    let reordering = get_owned(attrs, SHTMLKey::ArgumentReordering);
    let macroname = get_owned(attrs, SHTMLKey::Macroname);
    state.open_decl();
    Some(OpenSHTMLElement::Symdecl { uri, arity, macroname, role, assoctype, reordering })
}

/// What the rule for the declaration of a variable leaves behind.
pub open spec fn rule_vardecl(s: StateView, a: AttrSeq, tag: SHTMLKey, is_seq: bool) -> Outcome {
    match get_spec(a, tag) {
        Some(name) if name.len() > 0 => {
            let (s1, assoctype) = assoc_opt(s, a);
            let (s2, arity) = arity_opt(s1, a);
            opened(
                s2.with_frame(FrameView::Decl { tp: None, df: None }).with_narrative(
                    ScopeKind::Variable,
                    Some(s.child_uri(name)),
                    Seq::<UriView>::empty(),
                ),
                a,
                ElementView::Vardecl {
                    uri: s.child_uri(name),
                    arity,
                    macroname: get_spec(a, SHTMLKey::Macroname),
                    role: list_spec(a, SHTMLKey::Role),
                    assoctype,
                    reordering: get_spec(a, SHTMLKey::ArgumentReordering),
                    bind: bool_spec(a, SHTMLKey::Bind),
                    is_seq,
                },
            )
        },
        _ => failed(s, a, invalid(tag, None)),
    }
}

/// Opens the declaration of a variable, or of a sequence of variables,
/// named by the attribute of `tag`. The declaration is a narrative scope of
/// its own and may receive a type and a definiens.
pub fn do_vardecl(state: &mut ExtractorState, attrs: &mut Attributes, tag: SHTMLKey, is_seq: bool) -> (r:
    Option<OpenSHTMLElement>)
    requires
        old(state).wf(),
    ensures
        (Outcome { state: final(state)@, attrs: final(attrs)@, element: opt_element(r) })
            == rule_vardecl(old(state)@, old(attrs)@, tag, is_seq),
        final(state).wf(),
        old(attrs).wf() ==> final(attrs).wf(),
        final(state)@.diagnostics.len() >= old(state)@.diagnostics.len(),
        final(state)@.narrative.len() == old(state)@.narrative.len() + scope_of(opt_element(r)),
        final(state)@.content.len() == old(state)@.content.len() + content_of(opt_element(r)),
{
    let name = match get_owned(attrs, tag) {
        Some(n) => n,
        None => {
            state.add_error(SHTMLError::InvalidKeyFor(tag, None));
            return None;
        },
    };
    if name.len() == 0 {
        state.add_error(SHTMLError::InvalidKeyFor(tag, None));
        return None;
    }
    let role = get_list(attrs, SHTMLKey::Role);
    let assoctype = get_assoctype(state, attrs);
    let arity = get_arity(state, attrs);
    let reordering = get_owned(attrs, SHTMLKey::ArgumentReordering);
    let macroname = get_owned(attrs, SHTMLKey::Macroname);
    let bind = get_bool(attrs, SHTMLKey::Bind);
    state.open_decl();
    let uri = state.child_uri(name.as_slice());
    state.open_variable(uri.copy());
    Some(
        OpenSHTMLElement::Vardecl { uri, arity, macroname, role, assoctype, reordering, bind, is_seq },
    )
}

/// Opens the declaration of a variable.
pub fn vardecl(state: &mut ExtractorState, attrs: &mut Attributes) -> (r: Option<OpenSHTMLElement>)
    requires
        old(state).wf(),
    ensures
        (Outcome { state: final(state)@, attrs: final(attrs)@, element: opt_element(r) })
            == rule_vardecl(old(state)@, old(attrs)@, SHTMLKey::Vardef, false),
        final(state).wf(),
        old(attrs).wf() ==> final(attrs).wf(),
        final(state)@.diagnostics.len() >= old(state)@.diagnostics.len(),
        final(state)@.narrative.len() == old(state)@.narrative.len() + scope_of(opt_element(r)),
        final(state)@.content.len() == old(state)@.content.len() + content_of(opt_element(r)),
{
    do_vardecl(state, attrs, SHTMLKey::Vardef, false)
}

/// Opens the declaration of a sequence of variables.
pub fn varseq(state: &mut ExtractorState, attrs: &mut Attributes) -> (r: Option<OpenSHTMLElement>)
    requires
        old(state).wf(),
    ensures
        (Outcome { state: final(state)@, attrs: final(attrs)@, element: opt_element(r) })
            == rule_vardecl(old(state)@, old(attrs)@, SHTMLKey::Varseq, true),
        final(state).wf(),
        old(attrs).wf() ==> final(attrs).wf(),
        final(state)@.diagnostics.len() >= old(state)@.diagnostics.len(),
        final(state)@.narrative.len() == old(state)@.narrative.len() + scope_of(opt_element(r)),
        final(state)@.content.len() == old(state)@.content.len() + content_of(opt_element(r)),
{
    do_vardecl(state, attrs, SHTMLKey::Varseq, true)
}

// ----- notations -----

/// The precedences that the first `k` pieces give, empty pieces aside;
/// `None` where one of them is no number.
pub open spec fn argprecs_of(ps: Seq<Seq<u8>>, k: int) -> Option<Seq<i64>>
    decreases k,
{
    if k <= 0 {
        Some(Seq::<i64>::empty())
    } else {
        match argprecs_of(ps, k - 1) {
            None => None,
            Some(v) => if ps[k - 1].len() == 0 {
                Some(v)
            } else {
                match integer64(trimmed(ps[k - 1])) {
                    Some(n) => Some(v.push(n)),
                    None => None,
                }
            },
        }
    }
}

/// Once a piece is no number, no longer run of pieces gives precedences.
pub proof fn lemma_argprecs_none(ps: Seq<Seq<u8>>, k: int, n: int)
    requires
        0 <= k <= n,
        argprecs_of(ps, k) is None,
    ensures
        argprecs_of(ps, n) is None,
    decreases n - k,
{
    if k < n {
        lemma_argprecs_none(ps, k, n - 1);
    }
}

/// Reads the precedences of the arguments from the pieces of a list.
pub fn read_argprecs(parts: &Vec<Vec<u8>>) -> (r: Option<Vec<i64>>)
    ensures
        match r {
            Some(v) => argprecs_of(views(parts@), parts@.len() as int) == Some(v@),
            None => argprecs_of(views(parts@), parts@.len() as int) is None,
        },
{
    let ghost ps = views(parts@);
    let mut argprecs: Vec<i64> = Vec::new();
    let mut i: usize = 0;
    while i < parts.len()
        invariant
            i <= parts.len(),
            ps == views(parts@),
            argprecs_of(ps, i as int) == Some(argprecs@),
        decreases parts.len() - i,
    {
        assert(ps[i as int] == parts@[i as int]@);
        if parts[i].len() > 0 {
            let t = trim(parts[i].as_slice());
            match parse_i64(t.as_slice()) {
                Some(n) => {
                    argprecs.push(n);
                },
                None => {
                    proof {
                        lemma_argprecs_none(ps, i + 1, ps.len() as int);
                    }
                    return None;
                },
            }
        }
        i += 1;
    }
    Some(argprecs)
}

/// What a notation is a notation of: the symbol that the attribute names,
/// else the variable of that name.
pub open spec fn notated(s: StateView, a: AttrSeq) -> Option<VarOrSymView> {
    match symbol_spec(s, a, SHTMLKey::Notation) {
        Ok(u) => Some(VarOrSymView::S(u)),
        Err(_) => match get_spec(a, SHTMLKey::Notation) {
            Some(v) => Some(VarOrSymView::V(PreVarView::Unresolved(v))),
            None => None,
        },
    }
}

/// What the rule for a notation leaves behind.
pub open spec fn rule_notation(s: StateView, a: AttrSeq) -> Outcome {
    match notated(s, a) {
        None => failed(s, a, invalid(SHTMLKey::Notation, None)),
        Some(symbol) => {
            let prefix = match get_spec(a, SHTMLKey::NotationFragment) {
                Some(f) => if f.len() > 0 {
                    f
                } else {
                    lit("notation")
                },
                None => lit("notation"),
            };
            let id = s.fresh_id(prefix);
            let s1 = s.after_id();
            let precedence = match get_spec(a, SHTMLKey::Precedence) {
                Some(v) => integer64(v),
                None => Some(0i64),
            };
            if precedence is None {
                failed(s1, a, invalid(SHTMLKey::Precedence, None))
            } else {
                let ps = match get_spec(a, SHTMLKey::Argprecs) {
                    Some(v) => pieces(v, 0x2cu8),
                    None => Seq::<Seq<u8>>::empty(),
                };
                match argprecs_of(ps, ps.len() as int) {
                    None => failed(s1, a, invalid(SHTMLKey::Argprecs, None)),
                    Some(argprecs) => opened(
                        s1.with_notation(id),
                        a,
                        ElementView::Notation {
                            id,
                            symbol,
                            precedence: precedence.unwrap(),
                            argprecs,
                        },
                    ),
                }
            }
        },
    }
}

/// Opens a notation of a symbol or of a variable. While it is open, the
/// attributes of terms mark its components.
pub fn notation(state: &mut ExtractorState, attrs: &mut Attributes) -> (r: Option<OpenSHTMLElement>)
    ensures
        (Outcome { state: final(state)@, attrs: final(attrs)@, element: opt_element(r) })
            == rule_notation(old(state)@, old(attrs)@),
        old(state).wf() ==> final(state).wf(),
        old(attrs).wf() ==> final(attrs).wf(),
        final(state)@.diagnostics.len() >= old(state)@.diagnostics.len(),
        final(state)@.narrative.len() == old(state)@.narrative.len() + scope_of(opt_element(r)),
        final(state)@.content.len() == old(state)@.content.len() + content_of(opt_element(r)),
{
    let symbol = match get_symbol_uri(attrs, SHTMLKey::Notation, state) {
        Ok(u) => VarOrSym::S(u),
        Err(_) => match get_owned(attrs, SHTMLKey::Notation) {
            Some(v) => VarOrSym::V(PreVar::Unresolved(v)),
            None => {
                state.add_error(SHTMLError::InvalidKeyFor(SHTMLKey::Notation, None));
                return None;
            },
        },
    };
    let fragment = match get_owned(attrs, SHTMLKey::NotationFragment) {
        Some(f) => if f.len() > 0 {
            f
        } else {
            crate::text::bytes_of("notation")
        },
        None => crate::text::bytes_of("notation"),
    };
    let id = state.new_id(fragment.as_slice());
    let precedence: i64 = match get(attrs, SHTMLKey::Precedence) {
        Some(v) => match parse_i64(v.as_slice()) {
            Some(n) => n,
            None => {
                state.add_error(SHTMLError::InvalidKeyFor(SHTMLKey::Precedence, None));
                return None;
            },
        },
        None => 0,
    };
    let parts: Vec<Vec<u8>> = match get(attrs, SHTMLKey::Argprecs) {
        Some(v) => split(v.as_slice(), 0x2cu8),
        None => {
            let v: Vec<Vec<u8>> = Vec::new();
            assert(views(v@) =~= Seq::<Seq<u8>>::empty());
            v
        },
    };
    let argprecs = match read_argprecs(&parts) {
        Some(v) => v,
        None => {
            state.add_error(SHTMLError::InvalidKeyFor(SHTMLKey::Argprecs, None));
            return None;
        },
    };
    state.open_notation(id.as_slice());
    Some(OpenSHTMLElement::Notation { id, symbol, precedence, argprecs })
}

/// The attributes after a component marker of kind `key` has consumed what
/// would otherwise be read as a term.
pub open spec fn component_attrs(a: AttrSeq, key: SHTMLKey) -> AttrSeq {
    drop_spec(
        drop_spec(
            drop_spec(drop_spec(drop_spec(a, key), SHTMLKey::Term), SHTMLKey::Head),
            SHTMLKey::NotationId,
        ),
        SHTMLKey::Invisible,
    )
}

/// Consumes the attributes of a component marker and strikes the rules they would trigger.
fn component(attrs: &mut Attributes, nexts: &mut RuleQueue, key: SHTMLKey)
    ensures
        final(attrs)@ == component_attrs(old(attrs)@, key),
        queue_items(*final(nexts)) == kept(queue_items(*old(nexts)), key),
        old(attrs).wf() ==> final(attrs).wf(),
{
    remove(attrs, key);
    remove(attrs, SHTMLKey::Term);
    remove(attrs, SHTMLKey::Head);
    remove(attrs, SHTMLKey::NotationId);
    remove(attrs, SHTMLKey::Invisible);
    queue_retain(nexts, key);
}

/// Marks a component of the enclosing notation.
pub fn notationcomp(state: &mut ExtractorState, attrs: &mut Attributes, nexts: &mut RuleQueue) -> (r: Option<
    OpenSHTMLElement,
>)
    ensures
        opt_element(r) == Some(ElementView::NotationComp),
        final(state)@ == old(state)@,
        final(attrs)@ == component_attrs(old(attrs)@, SHTMLKey::NotationComp),
        queue_items(*final(nexts)) == kept(queue_items(*old(nexts)), SHTMLKey::NotationComp),
        old(attrs).wf() ==> final(attrs).wf(),
        old(state).wf() ==> final(state).wf(),
        final(state)@.diagnostics.len() >= old(state)@.diagnostics.len(),
        final(state)@.narrative.len() == old(state)@.narrative.len() + scope_of(opt_element(r)),
        final(state)@.content.len() == old(state)@.content.len() + content_of(opt_element(r)),
{
    component(attrs, nexts, SHTMLKey::NotationComp);
    Some(OpenSHTMLElement::NotationComp)
}

/// Marks the operator component of the enclosing notation.
pub fn notationopcomp(state: &mut ExtractorState, attrs: &mut Attributes, nexts: &mut RuleQueue) -> (r:
    Option<OpenSHTMLElement>)
    ensures
        opt_element(r) == Some(ElementView::NotationOpComp),
        final(state)@ == old(state)@,
        final(attrs)@ == component_attrs(old(attrs)@, SHTMLKey::NotationOpComp),
        queue_items(*final(nexts)) == kept(queue_items(*old(nexts)), SHTMLKey::NotationOpComp),
        old(attrs).wf() ==> final(attrs).wf(),
        old(state).wf() ==> final(state).wf(),
        final(state)@.diagnostics.len() >= old(state)@.diagnostics.len(),
        final(state)@.narrative.len() == old(state)@.narrative.len() + scope_of(opt_element(r)),
        final(state)@.content.len() == old(state)@.content.len() + content_of(opt_element(r)),
{
    component(attrs, nexts, SHTMLKey::NotationOpComp);
    Some(OpenSHTMLElement::NotationOpComp)
}

/// Marks the separator of a sequence argument in the enclosing notation.
pub fn argsep(state: &mut ExtractorState, attrs: &mut Attributes, nexts: &mut RuleQueue) -> (r: Option<
    OpenSHTMLElement,
>)
    ensures
        opt_element(r) == Some(ElementView::ArgSep),
        final(state)@ == old(state)@,
        final(attrs)@ == component_attrs(old(attrs)@, SHTMLKey::ArgSep),
        queue_items(*final(nexts)) == kept(queue_items(*old(nexts)), SHTMLKey::ArgSep),
        old(attrs).wf() ==> final(attrs).wf(),
        old(state).wf() ==> final(state).wf(),
        final(state)@.diagnostics.len() >= old(state)@.diagnostics.len(),
        final(state)@.narrative.len() == old(state)@.narrative.len() + scope_of(opt_element(r)),
        final(state)@.content.len() == old(state)@.content.len() + content_of(opt_element(r)),
{
    component(attrs, nexts, SHTMLKey::ArgSep);
    Some(OpenSHTMLElement::ArgSep)
}

/// Marks what is mapped over a sequence argument in the enclosing notation.
pub fn argmap(state: &mut ExtractorState, attrs: &mut Attributes, nexts: &mut RuleQueue) -> (r: Option<
    OpenSHTMLElement,
>)
    ensures
        opt_element(r) == Some(ElementView::ArgMap),
        final(state)@ == old(state)@,
        final(attrs)@ == component_attrs(old(attrs)@, SHTMLKey::ArgMap),
        queue_items(*final(nexts)) == kept(queue_items(*old(nexts)), SHTMLKey::ArgMap),
        old(attrs).wf() ==> final(attrs).wf(),
        old(state).wf() ==> final(state).wf(),
        final(state)@.diagnostics.len() >= old(state)@.diagnostics.len(),
        final(state)@.narrative.len() == old(state)@.narrative.len() + scope_of(opt_element(r)),
        final(state)@.content.len() == old(state)@.content.len() + content_of(opt_element(r)),
{
    component(attrs, nexts, SHTMLKey::ArgMap);
    Some(OpenSHTMLElement::ArgMap)
}

/// Marks the separator of what is mapped over a sequence argument.
pub fn argmapsep(state: &mut ExtractorState, attrs: &mut Attributes, nexts: &mut RuleQueue) -> (r: Option<
    OpenSHTMLElement,
>)
    ensures
        opt_element(r) == Some(ElementView::ArgMapSep),
        final(state)@ == old(state)@,
        final(attrs)@ == component_attrs(old(attrs)@, SHTMLKey::ArgMapSep),
        queue_items(*final(nexts)) == kept(queue_items(*old(nexts)), SHTMLKey::ArgMapSep),
        old(attrs).wf() ==> final(attrs).wf(),
        old(state).wf() ==> final(state).wf(),
        final(state)@.diagnostics.len() >= old(state)@.diagnostics.len(),
        final(state)@.narrative.len() == old(state)@.narrative.len() + scope_of(opt_element(r)),
        final(state)@.content.len() == old(state)@.content.len() + content_of(opt_element(r)),
{
    component(attrs, nexts, SHTMLKey::ArgMapSep);
    Some(OpenSHTMLElement::ArgMapSep)
}

// ----- terms -----

/// What the rule for a definiendum leaves behind.
pub open spec fn rule_definiendum(s: StateView, a: AttrSeq) -> Outcome {
    match symbol_spec(s, a, SHTMLKey::Definiendum) {
        Err(e) => failed(s, a, e),
        Ok(u) => opened(s.with_definiendum(u), a, ElementView::Definiendum(u)),
    }
}

/// Marks the symbol that is being defined here.
pub fn definiendum(state: &mut ExtractorState, attrs: &mut Attributes) -> (r: Option<OpenSHTMLElement>)
    ensures
        (Outcome { state: final(state)@, attrs: final(attrs)@, element: opt_element(r) })
            == rule_definiendum(old(state)@, old(attrs)@),
        old(state).wf() ==> final(state).wf(),
        old(attrs).wf() ==> final(attrs).wf(),
        final(state)@.diagnostics.len() >= old(state)@.diagnostics.len(),
        final(state)@.narrative.len() == old(state)@.narrative.len() + scope_of(opt_element(r)),
        final(state)@.content.len() == old(state)@.content.len() + content_of(opt_element(r)),
{
    match get_symbol_uri(attrs, SHTMLKey::Definiendum, state) {
        Ok(u) => {
            state.add_definiendum(u.copy());
            Some(OpenSHTMLElement::Definiendum(u))
        },
        Err(e) => {
            state.add_error(e);
            None
        },
    }
}

/// What the rule for a type leaves behind.
pub open spec fn rule_type(s: StateView, a: AttrSeq) -> Outcome {
    if s.in_term {
        failed(s, a, ErrorView::InvalidKey)
    } else {
        opened(StateView { in_term: true, ..s }, a, ElementView::Type)
    }
}

/// Opens the type of the enclosing declaration; a type cannot stand inside a term.
pub fn type_rule(state: &mut ExtractorState, attrs: &mut Attributes) -> (r: Option<OpenSHTMLElement>)
    ensures
        (Outcome { state: final(state)@, attrs: final(attrs)@, element: opt_element(r) })
            == rule_type(old(state)@, old(attrs)@),
        old(state).wf() ==> final(state).wf(),
        old(attrs).wf() ==> final(attrs).wf(),
        final(state)@.diagnostics.len() >= old(state)@.diagnostics.len(),
        final(state)@.narrative.len() == old(state)@.narrative.len() + scope_of(opt_element(r)),
        final(state)@.content.len() == old(state)@.content.len() + content_of(opt_element(r)),
{
    if state.in_term() {
        state.add_error(SHTMLError::InvalidKey);
        return None;
    }
    state.set_in_term(true);
    Some(OpenSHTMLElement::Type)
}

/// What the rule for a conclusion leaves behind.
pub open spec fn rule_conclusion(s: StateView, a: AttrSeq) -> Outcome {
    match symbol_spec(s, a, SHTMLKey::Conclusion) {
        Err(e) => failed(s, a, e),
        Ok(uri) => opened(
            StateView { in_term: true, ..s },
            a,
            ElementView::Conclusion { uri, in_term: s.in_term },
        ),
    }
}

/// Opens the conclusion of the enclosing assertion; what follows is read as a term.
pub fn conclusion(state: &mut ExtractorState, attrs: &mut Attributes) -> (r: Option<OpenSHTMLElement>)
    ensures
        (Outcome { state: final(state)@, attrs: final(attrs)@, element: opt_element(r) })
            == rule_conclusion(old(state)@, old(attrs)@),
        old(state).wf() ==> final(state).wf(),
        old(attrs).wf() ==> final(attrs).wf(),
        final(state)@.diagnostics.len() >= old(state)@.diagnostics.len(),
        final(state)@.narrative.len() == old(state)@.narrative.len() + scope_of(opt_element(r)),
        final(state)@.content.len() == old(state)@.content.len() + content_of(opt_element(r)),
{
    match get_symbol_uri(attrs, SHTMLKey::Conclusion, state) {
        Ok(uri) => {
            let in_term = state.in_term();
            state.set_in_term(true);
            Some(OpenSHTMLElement::Conclusion { uri, in_term })
        },
        Err(e) => {
            state.add_error(e);
            None
        },
    }
}

/// What the rule for a definiens leaves behind.
pub open spec fn rule_definiens(s: StateView, a: AttrSeq) -> Outcome {
    let uri = symbol_spec(s, a, SHTMLKey::Definiens);
    let s1 = after_optional(s, uri);
    opened(
        StateView { in_term: true, ..s1 },
        a,
        ElementView::Definiens { uri: ok_uri(uri), in_term: s.in_term },
    )
}

/// Opens a definiens, of the symbol that the attribute names if it names one.
pub fn definiens(state: &mut ExtractorState, attrs: &mut Attributes) -> (r: Option<OpenSHTMLElement>)
    ensures
        (Outcome { state: final(state)@, attrs: final(attrs)@, element: opt_element(r) })
            == rule_definiens(old(state)@, old(attrs)@),
        old(state).wf() ==> final(state).wf(),
        old(attrs).wf() ==> final(attrs).wf(),
        final(state)@.diagnostics.len() >= old(state)@.diagnostics.len(),
        final(state)@.narrative.len() == old(state)@.narrative.len() + scope_of(opt_element(r)),
        final(state)@.content.len() == old(state)@.content.len() + content_of(opt_element(r)),
{
    let uri = match get_symbol_uri(attrs, SHTMLKey::Definiens, state) {
        Ok(u) => Some(u),
        Err(e) => {
            tolerated(state, e);
            None
        },
    };
    let in_term = state.in_term();
    state.set_in_term(true);
    Some(OpenSHTMLElement::Definiens { uri, in_term })
}

/// What the rule for the application of a named rule leaves behind.
pub open spec fn rule_mmtrule(s: StateView, a: AttrSeq) -> Outcome {
    match get_spec(a, SHTMLKey::Rule) {
        None => Outcome { state: s, attrs: a, element: None },
        Some(id) => opened(
            s.with_frame(FrameView::Args { args: Seq::<TermNodeView>::empty(), count: 0 }),
            a,
            ElementView::MMTRule(id),
        ),
    }
}

/// Opens the application of a named rule to the arguments that follow.
pub fn mmtrule(state: &mut ExtractorState, attrs: &mut Attributes) -> (r: Option<OpenSHTMLElement>)
    ensures
        (Outcome { state: final(state)@, attrs: final(attrs)@, element: opt_element(r) })
            == rule_mmtrule(old(state)@, old(attrs)@),
        old(state).wf() ==> final(state).wf(),
        old(attrs).wf() ==> final(attrs).wf(),
        final(state)@.diagnostics.len() >= old(state)@.diagnostics.len(),
        final(state)@.narrative.len() == old(state)@.narrative.len() + scope_of(opt_element(r)),
        final(state)@.content.len() == old(state)@.content.len() + content_of(opt_element(r)),
{
    match get_owned(attrs, SHTMLKey::Rule) {
        None => None,
        Some(id) => {
            state.open_args();
            Some(OpenSHTMLElement::MMTRule(id))
        },
    }
}

/// What the head `v` of a term refers to. The reference is tried as a
/// symbol, then as a module, then as a narrative element, in this order, and
/// the first that succeeds stands; a reference that is none of these is the
/// name of a variable.
pub open spec fn head_of(s: StateView, v: Seq<u8>) -> VarOrSymView {
    match symbol_of(s.archives, v, s.document.language) {
        Some(u) => VarOrSymView::S(u),
        None => match module_of(s.archives, v, s.document.language) {
            Some(m) => VarOrSymView::S(m),
            None => match element_of(v, s.document.language) {
                Some(d) => VarOrSymView::V(PreVarView::Resolved(d)),
                None => VarOrSymView::V(PreVarView::Unresolved(v)),
            },
        },
    }
}

/// Resolution order. A head that names a symbol refers to that symbol,
/// whatever else it names.
pub proof fn lemma_symbol_wins(s: StateView, v: Seq<u8>)
    requires
        symbol_of(s.archives, v, s.document.language) is Some,
    ensures
        head_of(s, v) == VarOrSymView::S(symbol_of(s.archives, v, s.document.language).unwrap()),
{
}

/// Resolution order. The head refers to exactly one thing: a symbol or
/// module, a narrative element, or a bare name; and a module is chosen only
/// where no symbol is, an element only where neither is.
pub proof fn lemma_head_order(s: StateView, v: Seq<u8>)
    ensures
        symbol_of(s.archives, v, s.document.language) is None && module_of(
            s.archives,
            v,
            s.document.language,
        ) is Some ==> head_of(s, v) == VarOrSymView::S(
            module_of(s.archives, v, s.document.language).unwrap(),
        ),
        symbol_of(s.archives, v, s.document.language) is None && module_of(
            s.archives,
            v,
            s.document.language,
        ) is None ==> head_of(s, v) is V,
{
}

/// Resolves the head of a term.
pub fn resolve_head(state: &ExtractorState, v: &[u8]) -> (r: VarOrSym)
    ensures
        r@ == head_of(state@, v@),
{
    match state.get_sym_uri(v) {
        Some(u) => VarOrSym::S(u),
        None => match state.get_mod_uri(v) {
            Some(m) => VarOrSym::S(m),
            None => match state.get_element_uri(v) {
                Some(d) => VarOrSym::V(PreVar::Resolved(d)),
                None => VarOrSym::V(PreVar::Unresolved(copy_bytes(v))),
            },
        },
    }
}

/// The head of a term and the state after a missing head was reported.
pub open spec fn term_head(s: StateView, a: AttrSeq) -> (StateView, VarOrSymView) {
    match get_spec(a, SHTMLKey::Head) {
        None => (
            s.with_error(ErrorView::MissingHeadForTerm),
            VarOrSymView::V(PreVarView::Unresolved(lit("ERROR"))),
        ),
        Some(v) => (s, head_of(s, v)),
    }
}

/// The kind of a term and the state after an unknown kind was reported; an
/// unknown kind is read as an application.
pub open spec fn term_kind(s: StateView, a: AttrSeq) -> (StateView, OpenTermKind) {
    let v = match get_spec(a, SHTMLKey::Term) {
        Some(v) => v,
        None => Seq::<u8>::empty(),
    };
    match term_kind_of(v) {
        Some(k) => (s, k),
        None => (s.with_error(ErrorView::InvalidTermKind(v)), OpenTermKind::OMA),
    }
}

/// The term that a kind and a head open, and the state after its frame was
/// begun. A head that does not fit the kind is reported and the term is read
/// as an application.
pub open spec fn term_shape(
    s: StateView,
    kind: OpenTermKind,
    head: VarOrSymView,
    notation: Option<Seq<u8>>,
) -> (StateView, OpenTermView) {
    let args = FrameView::Args { args: Seq::<TermNodeView>::empty(), count: 0 };
    match (kind, head) {
        (OpenTermKind::OMID, VarOrSymView::S(uri)) => (s, OpenTermView::Symref { uri, notation }),
        (OpenTermKind::OMID, VarOrSymView::V(name)) => (s, OpenTermView::Varref { name, notation }),
        (OpenTermKind::OMV, VarOrSymView::V(name)) => (s, OpenTermView::Varref { name, notation }),
        (OpenTermKind::OML, VarOrSymView::V(PreVarView::Unresolved(name))) => (
            s.with_frame(FrameView::Decl { tp: None, df: None }),
            OpenTermView::OML { name },
        ),
        (OpenTermKind::OMA, head) => (s.with_frame(args), OpenTermView::OMA { head, notation }),
        (OpenTermKind::Complex, head) => (
            s.with_frame(FrameView::Complex { term: None }),
            OpenTermView::Complex(head),
        ),
        (k, head) => (
            s.with_error(ErrorView::InvalidHeadForTermKind(k, head)).with_frame(args),
            OpenTermView::OMA { head, notation },
        ),
    }
}

/// What the rule for a term leaves behind.
pub open spec fn rule_term(s: StateView, a: AttrSeq) -> Outcome {
    if s.in_notation {
        Outcome { state: s, attrs: a, element: None }
    } else {
        let (s1, head) = term_head(s, a);
        let (s2, kind) = term_kind(s1, a);
        let (s3, term) = term_shape(s2, kind, head, get_spec(a, SHTMLKey::NotationId));
        opened(StateView { in_term: true, ..s3 }, a, ElementView::OpenTerm { term, is_top: !s.in_term })
    }
}

/// Opens a term. Inside a notation nothing happens. Only the outermost term
/// of a nesting is marked as top.
pub fn term(state: &mut ExtractorState, attrs: &mut Attributes) -> (r: Option<OpenSHTMLElement>)
    ensures
        (Outcome { state: final(state)@, attrs: final(attrs)@, element: opt_element(r) })
            == rule_term(old(state)@, old(attrs)@),
        old(state).wf() ==> final(state).wf(),
        old(attrs).wf() ==> final(attrs).wf(),
        final(state)@.diagnostics.len() >= old(state)@.diagnostics.len(),
        final(state)@.narrative.len() == old(state)@.narrative.len() + scope_of(opt_element(r)),
        final(state)@.content.len() == old(state)@.content.len() + content_of(opt_element(r)),
{
    if state.in_notation() {
        return None;
    }
    let notation = get_owned(attrs, SHTMLKey::NotationId);
    let head = match get(attrs, SHTMLKey::Head) {
        None => {
            state.add_error(SHTMLError::MissingHeadForTerm);
            VarOrSym::V(PreVar::Unresolved(crate::text::bytes_of("ERROR")))
        },
        Some(v) => resolve_head(state, v.as_slice()),
    };
    let kv: Vec<u8> = match get_owned(attrs, SHTMLKey::Term) {
        Some(v) => v,
        None => {
            let v: Vec<u8> = Vec::new();
            assert(v@ =~= Seq::<u8>::empty());
            v
        },
    };
    let kind = match OpenTermKind::parse(kv.as_slice()) {
        Some(k) => k,
        None => {
            state.add_error(SHTMLError::InvalidTermKind(kv));
            OpenTermKind::OMA
        },
    };
    let term = open_term(state, kind, head, notation);
    let is_top = !state.in_term();
    state.set_in_term(true);
    Some(OpenSHTMLElement::OpenTerm { term, is_top })
}

/// Opens the term that a kind and a head announce.
pub fn open_term(state: &mut ExtractorState, kind: OpenTermKind, head: VarOrSym, notation: Option<Vec<u8>>) -> (r:
    OpenTerm)
    ensures
        (final(state)@, r@) == term_shape(old(state)@, kind, head@, opt_bytes(notation)),
        final(state)@.diagnostics.len() >= old(state)@.diagnostics.len(),
{
    match (kind, head) {
        (OpenTermKind::OMID, VarOrSym::S(uri)) => OpenTerm::Symref { uri, notation },
        (OpenTermKind::OMID, VarOrSym::V(name)) => OpenTerm::Varref { name, notation },
        (OpenTermKind::OMV, VarOrSym::V(name)) => OpenTerm::Varref { name, notation },
        (OpenTermKind::OML, VarOrSym::V(PreVar::Unresolved(name))) => {
            state.open_decl();
            OpenTerm::OML { name }
        },
        (OpenTermKind::OMA, head) => {
            state.open_args();
            OpenTerm::OMA { head, notation }
        },
        (OpenTermKind::Complex, head) => {
            state.open_complex_term();
            OpenTerm::Complex(head)
        },
        (k, head) => {
            state.add_error(SHTMLError::InvalidHeadForTermKind(k, head.copy()));
            state.open_args();
            OpenTerm::OMA { head, notation }
        },
    }
}

/// What the rule for an argument marker leaves behind.
pub open spec fn rule_arg(s: StateView, a: AttrSeq) -> Outcome {
    match get_spec(a, SHTMLKey::Arg) {
        None => failed(s, a, ErrorView::InvalidArgSpec),
        Some(v) => match arg_of(v, get_spec(a, SHTMLKey::ArgMode)) {
            None => failed(s, a, ErrorView::InvalidArgSpec),
            Some(arg) => opened(s, a, ElementView::Arg(arg)),
        },
    }
}

/// Marks an argument of the enclosing application.
pub fn arg(state: &mut ExtractorState, attrs: &mut Attributes) -> (r: Option<OpenSHTMLElement>)
    ensures
        (Outcome { state: final(state)@, attrs: final(attrs)@, element: opt_element(r) })
            == rule_arg(old(state)@, old(attrs)@),
        old(state).wf() ==> final(state).wf(),
        old(attrs).wf() ==> final(attrs).wf(),
        final(state)@.diagnostics.len() >= old(state)@.diagnostics.len(),
        final(state)@.narrative.len() == old(state)@.narrative.len() + scope_of(opt_element(r)),
        final(state)@.content.len() == old(state)@.content.len() + content_of(opt_element(r)),
{
    let value = match get(attrs, SHTMLKey::Arg) {
        Some(v) => v,
        None => {
            state.add_error(SHTMLError::InvalidArgSpec);
            return None;
        },
    };
    match OpenArg::from_strs(value.as_slice(), get(attrs, SHTMLKey::ArgMode)) {
        Some(a) => Some(OpenSHTMLElement::Arg(a)),
        None => {
            state.add_error(SHTMLError::InvalidArgSpec);
            None
        },
    }
}

/// Marks the head of the enclosing complex term.
pub fn headterm(state: &mut ExtractorState, attrs: &mut Attributes) -> (r: Option<OpenSHTMLElement>)
    ensures
        opt_element(r) == Some(ElementView::HeadTerm),
        final(state)@ == old(state)@,
        final(attrs)@ == old(attrs)@,
        old(state).wf() ==> final(state).wf(),
        old(attrs).wf() ==> final(attrs).wf(),
        final(state)@.diagnostics.len() >= old(state)@.diagnostics.len(),
        final(state)@.narrative.len() == old(state)@.narrative.len() + scope_of(opt_element(r)),
        final(state)@.content.len() == old(state)@.content.len() + content_of(opt_element(r)),
{
    Some(OpenSHTMLElement::HeadTerm)
}

/// What the rule for an input reference leaves behind.
pub open spec fn rule_inputref(s: StateView, a: AttrSeq) -> Outcome {
    match document_spec(s, a, SHTMLKey::InputRef) {
        Err(e) => failed(s, a, e),
        Ok(uri) => {
            let (id, s1) = identified(s, a, uri.last_name());
            opened(s1, a, ElementView::Inputref { uri, id })
        },
    }
}

/// Marks a place where another document is read in.
pub fn inputref(state: &mut ExtractorState, attrs: &mut Attributes) -> (r: Option<OpenSHTMLElement>)
    ensures
        (Outcome { state: final(state)@, attrs: final(attrs)@, element: opt_element(r) })
            == rule_inputref(old(state)@, old(attrs)@),
        old(state).wf() ==> final(state).wf(),
        old(attrs).wf() ==> final(attrs).wf(),
        final(state)@.diagnostics.len() >= old(state)@.diagnostics.len(),
        final(state)@.narrative.len() == old(state)@.narrative.len() + scope_of(opt_element(r)),
        final(state)@.content.len() == old(state)@.content.len() + content_of(opt_element(r)),
{
    let uri = match get_document_uri(attrs, SHTMLKey::InputRef, state) {
        Ok(u) => u,
        Err(e) => {
            state.add_error(e);
            return None;
        },
    };
    let prefix = uri.last_name();
    let id = get_id(attrs, state, prefix.as_slice());
    Some(OpenSHTMLElement::Inputref { uri, id })
}

/// Marks what is shown only where the document is, or is not, read into another.
pub fn ifinputref(state: &mut ExtractorState, attrs: &mut Attributes) -> (r: Option<OpenSHTMLElement>)
    ensures
        opt_element(r) == Some(ElementView::IfInputref(bool_spec(old(attrs)@, SHTMLKey::IfInputref))),
        final(state)@ == old(state)@,
        final(attrs)@ == old(attrs)@,
        old(state).wf() ==> final(state).wf(),
        old(attrs).wf() ==> final(attrs).wf(),
        final(state)@.diagnostics.len() >= old(state)@.diagnostics.len(),
        final(state)@.narrative.len() == old(state)@.narrative.len() + scope_of(opt_element(r)),
        final(state)@.content.len() == old(state)@.content.len() + content_of(opt_element(r)),
{
    let value = get_bool(attrs, SHTMLKey::IfInputref);
    Some(OpenSHTMLElement::IfInputref(value))
}

/// Marks a piece of notation that belongs to the enclosing term.
pub fn comp(state: &mut ExtractorState, attrs: &mut Attributes) -> (r: Option<OpenSHTMLElement>)
    ensures
        opt_element(r) == Some(ElementView::Comp),
        final(state)@ == old(state)@,
        final(attrs)@ == old(attrs)@,
        old(state).wf() ==> final(state).wf(),
        old(attrs).wf() ==> final(attrs).wf(),
        final(state)@.diagnostics.len() >= old(state)@.diagnostics.len(),
        final(state)@.narrative.len() == old(state)@.narrative.len() + scope_of(opt_element(r)),
        final(state)@.content.len() == old(state)@.content.len() + content_of(opt_element(r)),
{
    Some(OpenSHTMLElement::Comp)
}

/// Marks the main piece of notation of the enclosing term.
pub fn maincomp(state: &mut ExtractorState, attrs: &mut Attributes) -> (r: Option<OpenSHTMLElement>)
    ensures
        opt_element(r) == Some(ElementView::MainComp),
        final(state)@ == old(state)@,
        final(attrs)@ == old(attrs)@,
        old(state).wf() ==> final(state).wf(),
        old(attrs).wf() ==> final(attrs).wf(),
        final(state)@.diagnostics.len() >= old(state)@.diagnostics.len(),
        final(state)@.narrative.len() == old(state)@.narrative.len() + scope_of(opt_element(r)),
        final(state)@.content.len() == old(state)@.content.len() + content_of(opt_element(r)),
{
    Some(OpenSHTMLElement::MainComp)
}

} // verus!
