//! The rule dispatcher.
//!
//! When an element is about to be appended, its attributes of the reserved
//! namespace are matched against the rule table. The matching rules run in
//! table order; each may strike rules that would run after it.

use vstd::prelude::*;
use crate::attributes::{lookup, AttrSeq, Attributes};
use crate::errors::DiagnosticLevel;
use crate::keys::{key_at, rule, SHTMLKey, PREFIX, RULES};
use crate::open::{
    content_of, contents_in, elements_view, scope_of, scopes_in, ElementView, OpenSHTMLElement,
    SHTMLElements,
};
use crate::paragraphs::ParagraphKind;
use crate::queue::{
    cancels, kept, lemma_kept_len, queue_is_empty, queue_items, queue_new, queue_pop, queue_push,
    queue_reverse, stays, RuleQueue,
};
use crate::rules::{
    arg, argmap, argmapsep, argsep, assertion, assign, comp, component_attrs, conclusion,
    definiendum, definiens, definition, doctitle, example, exercise, headterm, ifinputref,
    importmodule, inputref, invisible, maincomp, mathstructure, mmtrule, module, morphism, no_op,
    notation, notationcomp, notationopcomp, objective, opened, opt_element, paragraph, precondition,
    proof_paragraph, rule_arg, rule_assign, rule_conclusion, rule_definiendum, rule_definiens,
    rule_exercise, rule_importmodule, rule_inputref, rule_invisible, rule_mathstructure,
    rule_mmtrule, rule_module, rule_morphism, rule_notation, rule_objective, rule_paragraph,
    rule_precondition, rule_section, rule_setsectionlevel, rule_symdecl, rule_term, rule_type,
    rule_usemodule, rule_vardecl, section, setsectionlevel, subexercise, subproof, symdecl, term,
    title, type_rule, usemodule, vardecl, varseq, Outcome,
};
use crate::getters::bool_spec;
use crate::state::{ExtractorState, StateView};
use crate::text::{copy_bytes, eq_bytes, eq_str, is_prefix, lit, push_bytes, push_str, starts_with_str, views};

verus! {

/// What the rule of `key` does to the state and the attributes, and what it opens.
#[verifier::opaque]
pub open spec fn apply_rule(key: SHTMLKey, s: StateView, a: AttrSeq) -> Outcome {
    match key {
        SHTMLKey::Module => rule_module(s, a),
        SHTMLKey::MathStructure => rule_mathstructure(s, a),
        SHTMLKey::Morphism => rule_morphism(s, a),
        SHTMLKey::Assign => rule_assign(s, a),
        SHTMLKey::Section => rule_section(s, a),
        SHTMLKey::Definition => rule_paragraph(s, a, ParagraphKind::Definition),
        SHTMLKey::Paragraph => rule_paragraph(s, a, ParagraphKind::Paragraph),
        SHTMLKey::Assertion => rule_paragraph(s, a, ParagraphKind::Assertion),
        SHTMLKey::Example => rule_paragraph(s, a, ParagraphKind::Example),
        SHTMLKey::Proof => rule_paragraph(s, a, ParagraphKind::Proof),
        SHTMLKey::SubProof => rule_paragraph(s, a, ParagraphKind::SubProof),
        SHTMLKey::Exercise => rule_exercise(s, a, false),
        SHTMLKey::SubExercise => rule_exercise(s, a, true),
        SHTMLKey::DocTitle => opened(s, a, ElementView::Doctitle),
        SHTMLKey::Title => opened(s, a, ElementView::Title),
        SHTMLKey::PreconditionDimension => rule_precondition(s, a),
        SHTMLKey::ObjectiveDimension => rule_objective(s, a),
        SHTMLKey::Symdecl => rule_symdecl(s, a),
        SHTMLKey::Vardef => rule_vardecl(s, a, SHTMLKey::Vardef, false),
        SHTMLKey::Varseq => rule_vardecl(s, a, SHTMLKey::Varseq, true),
        SHTMLKey::Notation => rule_notation(s, a),
        SHTMLKey::NotationComp => opened(s, component_attrs(a, key), ElementView::NotationComp),
        SHTMLKey::NotationOpComp => opened(s, component_attrs(a, key), ElementView::NotationOpComp),
        SHTMLKey::Definiendum => rule_definiendum(s, a),
        SHTMLKey::Type => rule_type(s, a),
        SHTMLKey::Conclusion => rule_conclusion(s, a),
        SHTMLKey::Definiens => rule_definiens(s, a),
        SHTMLKey::Rule => rule_mmtrule(s, a),
        SHTMLKey::ArgSep => opened(s, component_attrs(a, key), ElementView::ArgSep),
        SHTMLKey::ArgMap => opened(s, component_attrs(a, key), ElementView::ArgMap),
        SHTMLKey::ArgMapSep => opened(s, component_attrs(a, key), ElementView::ArgMapSep),
        SHTMLKey::Term => rule_term(s, a),
        SHTMLKey::Arg => rule_arg(s, a),
        SHTMLKey::HeadTerm => opened(s, a, ElementView::HeadTerm),
        SHTMLKey::ImportModule => rule_importmodule(s, a),
        SHTMLKey::UseModule => rule_usemodule(s, a),
        SHTMLKey::InputRef => rule_inputref(s, a),
        SHTMLKey::SetSectionLevel => rule_setsectionlevel(s, a),
        SHTMLKey::IfInputref => opened(
            s,
            a,
            ElementView::IfInputref(bool_spec(a, SHTMLKey::IfInputref)),
        ),
        SHTMLKey::Comp => opened(s, a, ElementView::Comp),
        SHTMLKey::MainComp => opened(s, a, ElementView::MainComp),
        SHTMLKey::Invisible => rule_invisible(s, a),
        _ => Outcome { state: s, attrs: a, element: None },
    }
}

/// Whether the rule of `key` strikes other rules.
pub open spec fn strikes(key: SHTMLKey) -> bool {
    key == SHTMLKey::NotationComp || key == SHTMLKey::NotationOpComp || key == SHTMLKey::ArgSep || key
        == SHTMLKey::ArgMap || key == SHTMLKey::ArgMapSep
}

/// A rule that strikes none leaves the queue as it is.
pub proof fn lemma_kept_all(q: Seq<u8>, by: SHTMLKey)
    requires
        !strikes(by),
    ensures
        kept(q, by) == q,
    decreases q.len(),
{
    if q.len() > 0 {
        lemma_kept_all(q.drop_last(), by);
        assert(q.drop_last().push(q.last()) =~= q);
    }
}

/// Runs the rule of `key`.
#[verifier::rlimit(100)]
#[verifier::spinoff_prover]
pub fn apply(key: SHTMLKey, state: &mut ExtractorState, attrs: &mut Attributes, nexts: &mut RuleQueue) -> (r:
    Option<OpenSHTMLElement>)
    requires
        old(state).wf(),
        old(attrs).wf(),
    ensures
        (Outcome { state: final(state)@, attrs: final(attrs)@, element: opt_element(r) }) == apply_rule(
            key,
            old(state)@,
            old(attrs)@,
        ),
        queue_items(*final(nexts)) == kept(queue_items(*old(nexts)), key),
        final(state).wf(),
        final(attrs).wf(),
        final(state)@.diagnostics.len() >= old(state)@.diagnostics.len(),
        final(state)@.narrative.len() == old(state)@.narrative.len() + scope_of(opt_element(r)),
        final(state)@.content.len() == old(state)@.content.len() + content_of(opt_element(r)),
{
    proof {
        reveal(apply_rule);
        if !strikes(key) {
            lemma_kept_all(queue_items(*nexts), key);
        }
    }
    match key {
        SHTMLKey::Module => module(state, attrs),
        SHTMLKey::MathStructure => mathstructure(state, attrs),
        SHTMLKey::Morphism => morphism(state, attrs),
        SHTMLKey::Assign => assign(state, attrs),
        SHTMLKey::Section => section(state, attrs),
        SHTMLKey::Definition => definition(state, attrs),
        SHTMLKey::Paragraph => paragraph(state, attrs),
        SHTMLKey::Assertion => assertion(state, attrs),
        SHTMLKey::Example => example(state, attrs),
        SHTMLKey::Proof => proof_paragraph(state, attrs),
        SHTMLKey::SubProof => subproof(state, attrs),
        SHTMLKey::Exercise => exercise(state, attrs),
        SHTMLKey::SubExercise => subexercise(state, attrs),
        SHTMLKey::DocTitle => doctitle(state, attrs),
        SHTMLKey::Title => title(state, attrs),
        SHTMLKey::PreconditionDimension => precondition(state, attrs),
        SHTMLKey::ObjectiveDimension => objective(state, attrs),
        SHTMLKey::Symdecl => symdecl(state, attrs),
        SHTMLKey::Vardef => vardecl(state, attrs),
        SHTMLKey::Varseq => varseq(state, attrs),
        SHTMLKey::Notation => notation(state, attrs),
        SHTMLKey::NotationComp => notationcomp(state, attrs, nexts),
        SHTMLKey::NotationOpComp => notationopcomp(state, attrs, nexts),
        SHTMLKey::Definiendum => definiendum(state, attrs),
        SHTMLKey::Type => type_rule(state, attrs),
        SHTMLKey::Conclusion => conclusion(state, attrs),
        SHTMLKey::Definiens => definiens(state, attrs),
        SHTMLKey::Rule => mmtrule(state, attrs),
        SHTMLKey::ArgSep => argsep(state, attrs, nexts),
        SHTMLKey::ArgMap => argmap(state, attrs, nexts),
        SHTMLKey::ArgMapSep => argmapsep(state, attrs, nexts),
        SHTMLKey::Term => term(state, attrs),
        SHTMLKey::Arg => arg(state, attrs),
        SHTMLKey::HeadTerm => headterm(state, attrs),
        SHTMLKey::ImportModule => importmodule(state, attrs),
        SHTMLKey::UseModule => usemodule(state, attrs),
        SHTMLKey::InputRef => inputref(state, attrs),
        SHTMLKey::SetSectionLevel => setsectionlevel(state, attrs),
        SHTMLKey::IfInputref => ifinputref(state, attrs),
        SHTMLKey::Comp => comp(state, attrs),
        SHTMLKey::MainComp => maincomp(state, attrs),
        SHTMLKey::Invisible => invisible(state, attrs),
        _ => no_op(state, attrs),
    }
}

/// An entry of the rule table: a key, the attribute it is known by, and the rule it runs.
#[derive(Copy, Clone, Debug, PartialEq, Eq, Structural)]
pub struct SHTMLExtractionRule {
    pub tag: SHTMLKey,
}

impl SHTMLExtractionRule {
    /// The entry of `tag`.
    pub fn new(tag: SHTMLKey) -> (r: SHTMLExtractionRule)
        ensures
            r.tag == tag,
    {
        SHTMLExtractionRule { tag }
    }

    /// The name of the attribute that the rule answers to.
    pub fn attr(&self) -> (r: &'static str)
        ensures
            lit(r) == self.tag.attr(),
    {
        self.tag.attr_name()
    }

    /// Whether the rule answers to the attribute named `s`.
    pub fn applies(&self, s: &[u8]) -> (r: bool)
        ensures
            r == (s@ == self.tag.attr()),
    {
        eq_str(s, self.tag.attr_name())
    }

    /// Runs the rule.
    pub fn call(&self, state: &mut ExtractorState, attrs: &mut Attributes, nexts: &mut RuleQueue) -> (r:
        Option<OpenSHTMLElement>)
        requires
            old(state).wf(),
            old(attrs).wf(),
        ensures
            (Outcome { state: final(state)@, attrs: final(attrs)@, element: opt_element(r) })
                == apply_rule(self.tag, old(state)@, old(attrs)@),
            queue_items(*final(nexts)) == kept(queue_items(*old(nexts)), self.tag),
            final(state).wf(),
            final(attrs).wf(),
            final(state)@.diagnostics.len() >= old(state)@.diagnostics.len(),
            final(state)@.narrative.len() == old(state)@.narrative.len() + scope_of(opt_element(r)),
            final(state)@.content.len() == old(state)@.content.len() + content_of(opt_element(r)),
    {
        apply(self.tag, state, attrs, nexts)
    }
}

/// Whether an attribute name belongs to the reserved namespace.
pub open spec fn is_reserved(name: Seq<u8>) -> bool {
    is_prefix(lit("shtml:"), name)
}

/// The names of the reserved namespace among the first `k` attributes, in order.
pub open spec fn reserved_names(a: AttrSeq, k: int) -> Seq<Seq<u8>>
    decreases k,
{
    if k <= 0 {
        Seq::<Seq<u8>>::empty()
    } else if is_reserved(a[k - 1].0) {
        reserved_names(a, k - 1).push(a[k - 1].0)
    } else {
        reserved_names(a, k - 1)
    }
}

/// The position of the first of `names` that equals `name`, or `-1`.
pub open spec fn name_index(names: Seq<Seq<u8>>, name: Seq<u8>, from: int) -> int
    decreases names.len() - from,
{
    if from < 0 || from >= names.len() {
        -1
    } else if names[from] == name {
        from
    } else {
        name_index(names, name, from + 1)
    }
}

/// The positions of the first `k` rules of the table that match one of
/// `names`, in table order, and the names that none of them matched.
pub open spec fn matched(names: Seq<Seq<u8>>, k: int) -> (Seq<u8>, Seq<Seq<u8>>)
    decreases k,
{
    if k <= 0 {
        (Seq::<u8>::empty(), names)
    } else {
        let (codes, left) = matched(names, k - 1);
        let i = name_index(left, key_at(k - 1).attr(), 0);
        if i >= 0 {
            (codes.push((k - 1) as u8), left.remove(i))
        } else {
            (codes, left)
        }
    }
}

/// The remark that the attribute `name` is not known.
pub open spec fn unknown_attribute(a: AttrSeq, name: Seq<u8>) -> Seq<u8> {
    lit("Unknown shtml attribute: ") + name + lit(" = ") + match lookup(a, name) {
        Some(v) => v,
        None => Seq::<u8>::empty(),
    }
}

/// The state after the first `k` of the unmatched names were remarked on.
pub open spec fn remarked(s: StateView, a: AttrSeq, left: Seq<Seq<u8>>, k: int) -> StateView
    decreases k,
{
    if k <= 0 {
        s
    } else {
        remarked(s, a, left, k - 1).with_notice(DiagnosticLevel::Warning, unknown_attribute(a, left[k - 1]))
    }
}

/// What running the queued rules leaves behind. The rule to run next stands
/// last in `q`; the elements are listed in the order in which they were opened.
pub open spec fn run_rules(q: Seq<u8>, s: StateView, a: AttrSeq, elems: Seq<ElementView>) -> (
    StateView,
    AttrSeq,
    Seq<ElementView>,
)
    decreases q.len(),
{
    if q.len() == 0 {
        (s, a, elems)
    } else if q.last() >= RULES {
        run_rules(q.drop_last(), s, a, elems)
    } else {
        let key = key_at(q.last() as int);
        let o = apply_rule(key, s, a);
        proof {
            lemma_kept_len(q.drop_last(), key);
        }
        run_rules(
            kept(q.drop_last(), key),
            o.state,
            o.attrs,
            match o.element {
                Some(e) => elems.push(e),
                None => elems,
            },
        )
    }
}

/// What the dispatch on an element with attributes `a` leaves behind: the
/// state, the attributes, and the elements that were opened, if any.
///
/// An element without attributes of the reserved namespace is left alone.
/// Attributes of the namespace that no rule matches are remarked on and
/// change nothing else.
pub open spec fn dispatched(s: StateView, a: AttrSeq) -> (StateView, AttrSeq, Option<Seq<ElementView>>) {
    let names = reserved_names(a, a.len() as int);
    if names.len() == 0 {
        (s, a, None)
    } else {
        let (codes, left) = matched(names, RULES as int);
        let s1 = remarked(s, a, left, left.len() as int);
        if codes.len() == 0 {
            (s1, a, None)
        } else {
            let (s2, a2, elems) = run_rules(codes.reverse(), s1, a, Seq::<ElementView>::empty());
            (s2, a2, if elems.len() == 0 { None } else { Some(elems) })
        }
    }
}

/// The elements, or none.
pub open spec fn none_or(o: Option<Seq<ElementView>>) -> Seq<ElementView> {
    match o {
        Some(es) => es,
        None => Seq::<ElementView>::empty(),
    }
}

/// The view of optional pending elements.
pub open spec fn opt_elements(o: Option<SHTMLElements>) -> Option<Seq<ElementView>> {
    match o {
        Some(e) => Some(e@),
        None => None,
    }
}

/// Collects the names of the attributes of the reserved namespace.
fn collect_reserved(attrs: &Attributes) -> (r: Vec<Vec<u8>>)
    ensures
        views(r@) == reserved_names(attrs@, attrs@.len() as int),
{
    let mut r: Vec<Vec<u8>> = Vec::new();
    let mut i: usize = 0;
    assert(views(r@) =~= reserved_names(attrs@, 0));
    while i < attrs.len()
        invariant
            i <= attrs@.len(),
            views(r@) == reserved_names(attrs@, i as int),
        decreases attrs@.len() - i,
    {
        let name = attrs.name_at(i);
        let ghost before = views(r@);
        if starts_with_str(name.as_slice(), PREFIX) {
            r.push(copy_bytes(name.as_slice()));
            assert(views(r@) =~= before.push(name@));
        }
        i += 1;
    }
    r
}

/// Finds a name among names.
fn find_name(names: &Vec<Vec<u8>>, name: &[u8]) -> (r: Option<usize>)
    ensures
        match r {
            Some(i) => i as int == name_index(views(names@), name@, 0) && i < names@.len(),
            None => name_index(views(names@), name@, 0) == -1,
        },
{
    let mut i: usize = 0;
    while i < names.len()
        invariant
            i <= names.len(),
            name_index(views(names@), name@, i as int) == name_index(views(names@), name@, 0),
        decreases names.len() - i,
    {
        assert(views(names@)[i as int] == names@[i as int]@);
        if eq_bytes(names[i].as_slice(), name) {
            return Some(i);
        }
        i += 1;
    }
    None
}

/// Matches the names against the rule table.
fn match_rules(stripped: &mut Vec<Vec<u8>>) -> (rules: RuleQueue)
    ensures
        (queue_items(rules), views(final(stripped)@)) == matched(views(old(stripped)@), RULES as int),
{
    let ghost names = views(stripped@);
    let mut rules = queue_new();
    let mut k: u8 = 0;
    while (k as usize) < RULES
        invariant
            k <= RULES,
            (queue_items(rules), views(stripped@)) == matched(names, k as int),
        decreases RULES - k,
    {
        let entry = SHTMLExtractionRule::new(rule(k));
        let ghost left = views(stripped@);
        match find_name(stripped, entry.attr().as_bytes()) {
            Some(i) => {
                queue_push(&mut rules, k);
                stripped.remove(i);
                assert(views(stripped@) =~= left.remove(i as int));
            },
            None => {},
        }
        k += 1;
    }
    rules
}

/// Remarks on the names that no rule matched.
fn remark(state: &mut ExtractorState, attrs: &Attributes, left: &Vec<Vec<u8>>)
    ensures
        final(state)@ == remarked(old(state)@, attrs@, views(left@), left@.len() as int),
        old(state).wf() ==> final(state).wf(),
        final(state)@.diagnostics.len() >= old(state)@.diagnostics.len(),
        final(state)@.narrative == old(state)@.narrative,
        final(state)@.content == old(state)@.content,
{
    let mut i: usize = 0;
    let ghost names = views(left@);
    while i < left.len()
        invariant
            i <= left.len(),
            names == views(left@),
            state@ == remarked(old(state)@, attrs@, names, i as int),
            old(state).wf() ==> state.wf(),
            state@.diagnostics.len() >= old(state)@.diagnostics.len(),
            state@.narrative == old(state)@.narrative,
            state@.content == old(state)@.content,
        decreases left.len() - i,
    {
        assert(names[i as int] == left@[i as int]@);
        let mut m: Vec<u8> = Vec::new();
        push_str(&mut m, "Unknown shtml attribute: ");
        push_bytes(&mut m, left[i].as_slice());
        push_str(&mut m, " = ");
        match attrs.value(left[i].as_slice()) {
            Some(v) => {
                push_bytes(&mut m, v.as_slice());
            },
            None => {},
        }
        assert(m@ =~= unknown_attribute(attrs@, names[i as int]));
        state.add_notice(DiagnosticLevel::Warning, m);
        i += 1;
    }
}

/// Runs the queued rules in table order. Each rule sees the rules that are
/// still to run and may strike some of them.
pub fn do_rules(state: &mut ExtractorState, attrs: &mut Attributes, rules: RuleQueue) -> (r: Option<
    SHTMLElements,
>)
    requires
        old(state).wf(),
        old(attrs).wf(),
    ensures
        final(state).wf(),
        final(attrs).wf(),
        ({
            let (s, a, elems) = run_rules(
                queue_items(rules).reverse(),
                old(state)@,
                old(attrs)@,
                Seq::<ElementView>::empty(),
            );
            &&& final(state)@ == s
            &&& final(attrs)@ == a
            &&& opt_elements(r) == if elems.len() == 0 {
                None
            } else {
                Some(elems)
            }
        }),
        final(state)@.diagnostics.len() >= old(state)@.diagnostics.len(),
        final(state)@.narrative.len() == old(state)@.narrative.len() + scopes_in(none_or(opt_elements(r))),
        final(state)@.content.len() == old(state)@.content.len() + contents_in(none_or(opt_elements(r))),
{
    let mut rules = rules;
    let ghost start = queue_items(rules).reverse();
    queue_reverse(&mut rules);
    let mut ret = SHTMLElements::new();
    loop
        invariant
            state.wf(),
            attrs.wf(),
            state@.diagnostics.len() >= old(state)@.diagnostics.len(),
            state@.narrative.len() == old(state)@.narrative.len() + scopes_in(ret@),
            state@.content.len() == old(state)@.content.len() + contents_in(ret@),
            run_rules(queue_items(rules), state@, attrs@, ret@) == run_rules(
                start,
                old(state)@,
                old(attrs)@,
                Seq::<ElementView>::empty(),
            ),
        ensures
            queue_items(rules).len() == 0,
        decreases queue_items(rules).len(),
    {
        let ghost q = queue_items(rules);
        let code = match queue_pop(&mut rules) {
            Some(c) => c,
            None => { break ; },
        };
        if (code as usize) < RULES {
            let entry = SHTMLExtractionRule::new(rule(code));
            proof {
                lemma_kept_len(q.drop_last(), entry.tag);
            }
            let ghost before = ret@;
            match entry.call(state, attrs, &mut rules) {
                Some(e) => {
                    ret.push(e);
                    assert(ret@.drop_last() =~= before);
                },
                None => {},
            }
        }
    }
    if ret.is_empty() {
        None
    } else {
        Some(ret)
    }
}

/// Dispatches the rules on the attributes of an element that is about to be
/// appended, and hands back the semantic elements that they opened.
pub fn applicable_rules(state: &mut ExtractorState, attrs: &mut Attributes) -> (r: Option<SHTMLElements>)
    requires
        old(state).wf(),
        old(attrs).wf(),
    ensures
        final(state).wf(),
        final(attrs).wf(),
        (final(state)@, final(attrs)@, opt_elements(r)) == dispatched(old(state)@, old(attrs)@),
        final(state)@.diagnostics.len() >= old(state)@.diagnostics.len(),
        final(state)@.narrative.len() == old(state)@.narrative.len() + scopes_in(none_or(opt_elements(r))),
        final(state)@.content.len() == old(state)@.content.len() + contents_in(none_or(opt_elements(r))),
{
    let mut stripped = collect_reserved(attrs);
    if stripped.len() == 0 {
        return None;
    }
    let rules = match_rules(&mut stripped);
    remark(state, attrs, &stripped);
    if queue_is_empty(&rules) {
        return None;
    }
    do_rules(state, attrs, rules)
}

/// An element without attributes of the reserved namespace is left alone.
pub proof fn lemma_plain_element(s: StateView, a: AttrSeq)
    requires
        reserved_names(a, a.len() as int).len() == 0,
    ensures
        dispatched(s, a) == (s, a, None::<Seq<ElementView>>),
{
}

/// Remarks on unknown attributes do not make the extraction fail: they leave
/// the diagnostics, and everything but the remarks, as they were.
pub proof fn lemma_remarks_do_not_fail(s: StateView, a: AttrSeq, left: Seq<Seq<u8>>, k: int)
    ensures
        remarked(s, a, left, k) == (StateView { notices: remarked(s, a, left, k).notices, ..s }),
    decreases k,
{
    if k > 0 {
        lemma_remarks_do_not_fail(s, a, left, k - 1);
    }
}

} // verus!
