use shtml_extraction::close::{close_element, consume, find_term, finish_term, hand};
use shtml_extraction::errors::{write_report, Diagnostic, DiagnosticLevel, SHTMLError};
use shtml_extraction::keys::SHTMLKey;
use shtml_extraction::open::{OpenSHTMLElement, OpenTerm, SHTMLElements};
use shtml_extraction::resolve::ArchiveTable;
use shtml_extraction::sections::DocumentRange;
use shtml_extraction::state::{ExtractorState, Frame, Predicate, Resource, ScopeKind};
use shtml_extraction::terms::{
    ArgMode, AssocType, CognitiveDimension, OpenArg, OpenTermKind, PreVar, Term, TermNode, VarOrSym,
};
use shtml_extraction::uris::{Language, Uri, UriKind};

fn uri(kind: UriKind, name: &str, item: &str) -> Uri {
    Uri {
        kind,
        base: b"http://x".to_vec(),
        archive: b"a".to_vec(),
        path: Vec::new(),
        name: name.as_bytes().to_vec(),
        language: Language::English,
        item: item.as_bytes().to_vec(),
    }
}

fn state() -> ExtractorState {
    ExtractorState::new(uri(UriKind::Document, "doc", ""), ArchiveTable::new())
}

fn messages(s: &ExtractorState) -> Vec<String> {
    s.diagnostics().iter().map(|d| String::from_utf8(d.message.clone()).unwrap()).collect()
}

fn name(n: &str) -> Term {
    Term::leaf(TermNode::Name(n.as_bytes().to_vec()))
}

const ARG: OpenArg = OpenArg { index: 1, position: None, mode: ArgMode::Normal };

#[test]
fn a_new_state_knows_its_document() {
    let s = state();
    assert_eq!(s.document_uri(), &uri(UriKind::Document, "doc", ""));
    assert_eq!((s.content_depth(), s.narrative_depth(), s.frame_depth()), (0, 1, 0));
    assert!(!s.in_term() && !s.in_notation() && !s.has_diagnostics());
    assert_eq!(s.triples().len(), 3);
    assert_eq!(s.triples()[0].predicate, Predicate::Language);
    assert_eq!(s.triples()[0].object, b"en".to_vec());
    assert_eq!(s.triples()[2].subject, b"http://x?a=a".to_vec());
    assert_eq!(s.get_narrative_uri(), uri(UriKind::Document, "doc", ""));
    assert!(s.balanced());
    assert_eq!(s.cursor(), DocumentRange { start: 0, end: 0 });
}

#[test]
fn generated_identifiers_count_up() {
    let mut s = state();
    assert_eq!(s.new_id(b"section"), b"section_0".to_vec());
    assert_eq!(s.new_id(b"x"), b"x_1".to_vec());
    assert_eq!(s.new_id(b""), b"_2".to_vec());
}

#[test]
fn narrative_identifiers_follow_the_open_scopes() {
    let mut s = state();
    assert_eq!(s.child_uri(b"a"), uri(UriKind::Element, "doc", "a"));
    s.open_section(uri(UriKind::Element, "doc", "a"));
    s.open_narrative(None);
    assert_eq!(s.get_narrative_uri(), uri(UriKind::Element, "doc", "a"));
    assert_eq!(s.child_uri(b"b"), uri(UriKind::Element, "doc", "a/b"));
    assert!(s.scope_is(ScopeKind::Module));
    assert!(s.inside(ScopeKind::Section) && !s.inside(ScopeKind::Exercise));
    assert_eq!(s.find_scope(ScopeKind::Section), Some(1));
    assert_eq!(s.pop_scope().unwrap().kind, ScopeKind::Module);
    assert_eq!(s.pop_scope().unwrap().uri, Some(uri(UriKind::Element, "doc", "a")));
    assert!(s.pop_scope().is_none());
    assert_eq!(s.narrative_depth(), 1);
}

#[test]
fn facts_are_stated_once() {
    let mut s = state();
    s.add_triple(b"s".to_vec(), Predicate::Declares, b"o".to_vec());
    s.add_triple(b"s".to_vec(), Predicate::Declares, b"o".to_vec());
    s.add_triple(b"s".to_vec(), Predicate::Defines, b"o".to_vec());
    assert_eq!(s.triples().len(), 5);
}

#[test]
fn notes_of_exercises_need_an_exercise() {
    let mut s = state();
    s.add_precondition(uri(UriKind::Symbol, "m", "s"), CognitiveDimension::Apply);
    assert_eq!(messages(&s), vec!["unbalanced exercise element"]);
    s.open_exercise(uri(UriKind::Element, "doc", "e"));
    s.open_paragraph(uri(UriKind::Element, "doc", "e/p"), Vec::new());
    s.add_objective(uri(UriKind::Symbol, "m", "s"), CognitiveDimension::Create);
    assert_eq!(s.elements().len(), 1);
    assert_eq!(s.elements()[0].depth, 2);
    assert_eq!(
        s.elements()[0].element,
        OpenSHTMLElement::Objective { uri: uri(UriKind::Symbol, "m", "s"), dimension: CognitiveDimension::Create }
    );
    s.add_definiendum(uri(UriKind::Symbol, "m", "d"));
    assert_eq!(s.pop_scope().unwrap().fors, vec![uri(UriKind::Symbol, "m", "d")]);
    s.add_definiendum(uri(UriKind::Symbol, "m", "d"));
    assert!(s.pop_scope().unwrap().fors.is_empty());
}

#[test]
fn frames_take_what_belongs_to_them() {
    let mut s = state();
    assert!(!s.add_arg(ARG, &name("x")));
    s.open_args();
    assert!(s.add_arg(ARG, &name("x")));
    assert!(!s.set_complex(name("y")));
    assert!(!s.set_part(name("y"), false));
    assert!(!s.add_component(DocumentRange { start: 1, end: 2 }, false));
    match s.pop_frame().unwrap() {
        Frame::Args { args, count } => {
            assert_eq!(count, 1);
            assert_eq!(args.nodes, vec![TermNode::Argument(ARG), TermNode::Name(b"x".to_vec())]);
        }
        other => panic!("{other:?}"),
    }
    s.open_decl();
    assert!(s.set_part(name("t"), false) && s.set_part(name("d"), true));
    assert_eq!(s.pop_frame(), Some(Frame::Decl { tp: Some(name("t")), df: Some(name("d")) }));
    s.open_complex_term();
    assert!(s.set_complex(name("c")));
    assert_eq!(s.pop_frame(), Some(Frame::Complex { term: Some(name("c")) }));
    s.open_notation(b"n");
    assert!(s.in_notation());
    let (a, b) = (DocumentRange { start: 1, end: 2 }, DocumentRange { start: 3, end: 4 });
    assert!(s.add_component(a, false) && s.add_component(b, true) && s.add_component(b, false));
    assert_eq!(s.pop_frame(), Some(Frame::Notation { op: Some(b), comps: vec![a, b] }));
    assert!(s.pop_frame().is_none());
}

#[test]
fn titles_belong_to_sections_paragraphs_and_exercises() {
    let mut s = state();
    let r = DocumentRange { start: 3, end: 9 };
    assert!(!s.set_title(r));
    s.open_narrative(None);
    assert!(!s.set_title(r));
    s.open_section(uri(UriKind::Element, "doc", "s"));
    assert!(s.set_title(r));
    assert_eq!(s.pop_scope().unwrap().title, Some(r));
}

#[test]
fn an_extraction_with_open_scopes_is_not_handed_out() {
    let mut s = state();
    s.open_decl();
    assert!(!s.balanced());
    assert!(s.take().is_err());
    let mut s = state();
    s.open_content(uri(UriKind::Module, "m", ""));
    assert!(s.take().is_err());
    let mut s = state();
    s.open_section(uri(UriKind::Element, "doc", "s"));
    assert!(s.take().is_err());
    let mut s = state();
    s.set_document_title(b"T".to_vec());
    s.add_notice(DiagnosticLevel::Hint, b"h".to_vec());
    let found = s.take().unwrap();
    assert_eq!(found.title, Some(b"T".to_vec()));
    assert_eq!(found.notices.len(), 1);
    assert_eq!(found.document, uri(UriKind::Document, "doc", ""));
}

#[test]
fn finishing_terms() {
    let sym = uri(UriKind::Symbol, "m", "s");
    let mut s = state();
    let t = finish_term(&OpenTerm::Symref { uri: sym.clone(), notation: None }, &mut s);
    assert_eq!(t.nodes, vec![TermNode::Symbol(sym.clone())]);
    let t = finish_term(&OpenTerm::Varref { name: PreVar::Resolved(sym.clone()), notation: None }, &mut s);
    assert_eq!(t.nodes, vec![TermNode::Variable(sym.clone())]);
    assert!(!s.has_diagnostics());
    // an application without arguments, with and without its frame
    let oma = OpenTerm::OMA { head: VarOrSym::S(sym.clone()), notation: None };
    s.open_args();
    let t = finish_term(&oma, &mut s);
    assert_eq!(t.nodes, vec![TermNode::Application { args: 0 }, TermNode::Symbol(sym.clone())]);
    assert_eq!(s.frame_depth(), 0);
    s.open_decl();
    finish_term(&oma, &mut s);
    assert_eq!(s.frame_depth(), 1);
    assert_eq!(messages(&s), vec!["missing arguments in OMA"; 2]);
    // a labelled term with its parts
    s.set_part(name("d"), true);
    let t = finish_term(&OpenTerm::OML { name: b"l".to_vec() }, &mut s);
    assert_eq!(t.nodes, vec![TermNode::Label { name: b"l".to_vec(), parts: 1 }, TermNode::Name(b"d".to_vec())]);
    // a complex term
    let complex = OpenTerm::Complex(VarOrSym::V(PreVar::Unresolved(b"v".to_vec())));
    s.open_complex_term();
    assert_eq!(finish_term(&complex, &mut s).nodes, vec![TermNode::Name(b"v".to_vec())]);
    s.open_complex_term();
    s.set_complex(name("c"));
    assert_eq!(finish_term(&complex, &mut s), name("c"));
    assert_eq!(messages(&s)[2], "missing actual term for complex term v");
    assert_eq!(s.frame_depth(), 0);
}

#[test]
fn terms_are_handed_to_what_takes_them() {
    let mut s = state();
    let mut rest = SHTMLElements::new();
    // nothing takes it and no term is being read: it is dropped
    assert_eq!(hand(name("x"), &mut rest, &mut s), None);
    s.set_in_term(true);
    assert_eq!(hand(name("x"), &mut rest, &mut s), Some(OpenSHTMLElement::ClosedTerm(name("x"))));
    rest.push(OpenSHTMLElement::Comp);
    assert!(hand(name("x"), &mut rest, &mut s).is_some());
    assert_eq!(rest.len(), 1);
    rest.push(OpenSHTMLElement::Type);
    s.open_decl();
    assert_eq!(hand(name("t"), &mut rest, &mut s), None);
    assert_eq!(rest.elems, vec![OpenSHTMLElement::Comp]);
    assert!(!s.in_term());
    assert_eq!(s.pop_frame(), Some(Frame::Decl { tp: Some(name("t")), df: None }));
    assert!(!s.has_diagnostics());
}

#[test]
fn what_takes_a_term_finds_the_term_on_its_node_or_the_markup() {
    let mut s = state();
    s.set_cursor(DocumentRange { start: 5, end: 9 });
    let mut rest = SHTMLElements::new();
    assert_eq!(find_term(&mut rest, &mut s), Term::leaf(TermNode::Raw(DocumentRange { start: 5, end: 9 })));
    let var = OpenTerm::Varref { name: PreVar::Unresolved(b"v".to_vec()), notation: None };
    rest.push(OpenSHTMLElement::OpenTerm { term: var.clone(), is_top: true });
    assert!(matches!(find_term(&mut rest, &mut s).nodes[..], [TermNode::Raw(_)]));
    assert_eq!(rest.len(), 1);
    rest.push(OpenSHTMLElement::OpenTerm { term: var, is_top: false });
    assert_eq!(find_term(&mut rest, &mut s), name("v"));
    assert_eq!(rest.len(), 1);
}

#[test]
fn consuming_terms() {
    let sym = uri(UriKind::Symbol, "m", "s");
    let mut s = state();
    consume(OpenSHTMLElement::HeadTerm, name("h"), &mut s);
    consume(OpenSHTMLElement::Type, name("t"), &mut s);
    consume(OpenSHTMLElement::Conclusion { uri: sym.clone(), in_term: false }, name("c"), &mut s);
    consume(OpenSHTMLElement::Definiens { uri: Some(sym.clone()), in_term: false }, name("d"), &mut s);
    assert_eq!(
        messages(&s),
        vec![
            "content element outside of a module",
            "content element outside of a module",
            "unbalanced logical paragraph",
            "content element outside of a module"
        ]
    );
    let mut s = state();
    s.open_paragraph(uri(UriKind::Element, "doc", "p"), Vec::new());
    s.set_in_term(true);
    let conclusion = OpenSHTMLElement::Conclusion { uri: sym.clone(), in_term: false };
    consume(conclusion.clone(), name("c"), &mut s);
    consume(OpenSHTMLElement::Definiens { uri: Some(sym.clone()), in_term: true }, name("d"), &mut s);
    consume(OpenSHTMLElement::Definiens { uri: None, in_term: true }, name("d"), &mut s);
    assert!(s.in_term());
    assert_eq!(s.resources(), &vec![Resource::Term(name("c")), Resource::Term(name("d"))]);
    assert_eq!(s.elements().len(), 2);
    assert_eq!((s.elements()[0].element.clone(), s.elements()[0].first), (conclusion, Some(0)));
    assert_eq!(s.elements()[1].first, Some(1));
    assert_eq!(messages(&s), vec!["content element outside of a module"]);
}

#[test]
fn closing_declarations_notations_and_assignments() {
    let sym = uri(UriKind::Symbol, "m", "s");
    let module = uri(UriKind::Module, "m", "");
    let symdecl = OpenSHTMLElement::Symdecl {
        uri: sym.clone(),
        arity: vec![ArgMode::Normal],
        macroname: None,
        role: Vec::new(),
        assoctype: Some(AssocType::Prenex),
        reordering: None,
    };
    let mut rest = SHTMLElements::new();
    let mut s = state();
    s.open_decl();
    assert_eq!(close_element(symdecl.clone(), &mut rest, &mut s, b""), None);
    assert_eq!(messages(&s), vec!["content element outside of a module"]);
    assert_eq!(s.frame_depth(), 0);

    let mut s = state();
    s.open_content(module.clone());
    s.open_decl();
    s.set_part(name("t"), false);
    s.set_part(name("d"), true);
    s.set_cursor(DocumentRange { start: 2, end: 8 });
    close_element(symdecl.clone(), &mut rest, &mut s, b"");
    assert_eq!(s.resources(), &vec![Resource::Term(name("t")), Resource::Term(name("d"))]);
    let record = &s.declarations()[0];
    assert_eq!((record.depth, record.first, record.second), (1, Some(0), Some(1)));
    assert_eq!(record.range, DocumentRange { start: 2, end: 8 });
    assert_eq!(record.element, symdecl);
    let fact = s.triples().last().unwrap();
    assert_eq!(fact.predicate, Predicate::Declares);
    assert_eq!(fact.subject, module.to_bytes());
    assert_eq!(fact.object, sym.to_bytes());

    // an assignment takes the term of its complex frame
    let assign = OpenSHTMLElement::Assign(sym.clone());
    s.open_complex_term();
    close_element(assign.clone(), &mut rest, &mut s, b"");
    assert_eq!(messages(&s), vec![format!("missing actual term for complex term {}", String::from_utf8(sym.to_bytes()).unwrap())]);
    s.open_complex_term();
    s.set_complex(name("v"));
    close_element(assign.clone(), &mut rest, &mut s, b"");
    assert_eq!(s.declarations()[1].element, assign);
    assert_eq!(s.declarations()[1].first, Some(2));
    assert_eq!(s.triples().last().unwrap().predicate, Predicate::Defines);

    // a rule takes its arguments
    s.open_args();
    s.add_arg(ARG, &name("x"));
    close_element(OpenSHTMLElement::MMTRule(b"r".to_vec()), &mut rest, &mut s, b"");
    assert_eq!(s.declarations()[2].first, Some(3));
    assert_eq!(s.resources().len(), 4);

    // a notation takes its components and ends the reading of notations
    let notation = OpenSHTMLElement::Notation {
        id: b"n".to_vec(),
        symbol: VarOrSym::S(sym.clone()),
        precedence: 0,
        argprecs: Vec::new(),
    };
    close_element(notation.clone(), &mut rest, &mut s, b"");
    assert_eq!(messages(&s).last().unwrap(), "unbalanced narrative element");
    s.open_notation(b"n");
    let r = DocumentRange { start: 1, end: 2 };
    s.set_cursor(r);
    close_element(OpenSHTMLElement::NotationOpComp, &mut rest, &mut s, b"");
    close_element(OpenSHTMLElement::NotationComp, &mut rest, &mut s, b"");
    close_element(OpenSHTMLElement::ArgSep, &mut rest, &mut s, b"");
    close_element(notation, &mut rest, &mut s, b"");
    assert!(!s.in_notation());
    assert_eq!(s.resources().last().unwrap(), &Resource::Notation { op: Some(r), comps: vec![r, r] });
    assert_eq!(s.elements().len(), 1);
}

#[test]
fn closing_scopes_that_are_not_open_is_an_error() {
    let mut rest = SHTMLElements::new();
    let mut s = state();
    let u = uri(UriKind::Element, "doc", "x");
    close_element(OpenSHTMLElement::Section { lvl: shtml_extraction::sections::SectionLevel::Part, uri: u.clone() }, &mut rest, &mut s, b"");
    close_element(
        OpenSHTMLElement::Exercise { sub_exercise: false, styles: Vec::new(), uri: u.clone(), autogradable: false, points: None },
        &mut rest,
        &mut s,
        b"",
    );
    close_element(
        OpenSHTMLElement::Module { uri: uri(UriKind::Module, "m", ""), meta: None, signature: None },
        &mut rest,
        &mut s,
        b"",
    );
    close_element(OpenSHTMLElement::Title, &mut rest, &mut s, b"");
    close_element(OpenSHTMLElement::Invisible, &mut rest, &mut s, b"");
    close_element(OpenSHTMLElement::Doctitle, &mut rest, &mut s, b"T");
    assert_eq!(
        messages(&s),
        vec![
            "unbalanced narrative element",
            "unbalanced exercise element",
            "content element outside of a module",
            "unbalanced narrative element"
        ]
    );
    assert_eq!(s.narrative_depth(), 1);
    assert!(s.elements().is_empty());
}

#[test]
fn messages_of_errors() {
    let head = VarOrSym::V(PreVar::Unresolved(b"h".to_vec()));
    let cases = [
        (SHTMLError::MissingArguments, "missing arguments in OMA"),
        (SHTMLError::MissingElementsInList, "missing elements in term list"),
        (SHTMLError::MissingTermForComplex(head.clone()), "missing actual term for complex term h"),
        (SHTMLError::UnresolvedVariable(b"v".to_vec()), "unresolved variable v"),
        (SHTMLError::MissingHeadForTerm, "missing shtml:head attribute for term"),
        (SHTMLError::InvalidTermKind(b"k".to_vec()), "invalid term kind k"),
        (SHTMLError::InvalidHeadForTermKind(OpenTermKind::OML, head), "invalid head h for term kind OML"),
        (SHTMLError::InvalidArgSpec, "invalid or missing argument marker"),
        (SHTMLError::InvalidKeyFor(SHTMLKey::Symdecl, Some(b"v".to_vec())), "invalid key v for shtml tag symdecl"),
        (SHTMLError::InvalidKeyFor(SHTMLKey::Symdecl, None), "missing key for shtml tag symdecl"),
        (SHTMLError::NotInContent, "content element outside of a module"),
        (SHTMLError::NotInNarrative, "unbalanced narrative element"),
        (SHTMLError::NotInParagraph, "unbalanced logical paragraph"),
        (SHTMLError::NotInExercise, "unbalanced exercise element"),
        (SHTMLError::InvalidKey, "invalid key in shtml element"),
        (SHTMLError::IncompleteArgs, "incomplete argument list"),
    ];
    for (e, m) in cases {
        assert_eq!(String::from_utf8(e.message()).unwrap(), m);
    }
    let d = |m: &str| Diagnostic {
        level: DiagnosticLevel::Error,
        message: m.as_bytes().to_vec(),
        range: DocumentRange { start: 0, end: 0 },
    };
    assert_eq!(write_report(&vec![d("a"), d("b")]), b"a\nb\n".to_vec());
    assert_eq!(write_report(&Vec::new()), Vec::<u8>::new());
}
