use shtml_extraction::attributes::Attributes;
use shtml_extraction::dispatch::{applicable_rules, apply};
use shtml_extraction::errors::DiagnosticLevel;
use shtml_extraction::keys::{all_rules, rule, SHTMLKey, RULES};
use shtml_extraction::open::{OpenSHTMLElement, OpenTerm};
use shtml_extraction::paragraphs::ParagraphKind;
use shtml_extraction::queue::{keeps, RuleQueue};
use shtml_extraction::resolve::ArchiveTable;
use shtml_extraction::rules::{
    arg, definiens, do_paragraph, do_vardecl, inputref, mathstructure, module, morphism, notation,
    resolve_head, section, symdecl, term, type_rule,
};
use shtml_extraction::sections::SectionLevel;
use shtml_extraction::state::ExtractorState;
use shtml_extraction::terms::{ArgMode, AssocType, OpenArg, PreVar, VarOrSym};
use shtml_extraction::uris::{Language, Uri, UriKind};

const GROUP: &str = "http://mathhub.info/sTeX/Algebra/mod?Group";
const UNIT: &str = "http://mathhub.info/sTeX/Algebra/mod?Group?unit";

fn uri(kind: UriKind, path: &str, name: &str, item: &str) -> Uri {
    Uri {
        kind,
        base: b"http://mathhub.info".to_vec(),
        archive: b"sTeX/Algebra".to_vec(),
        path: path.as_bytes().to_vec(),
        name: name.as_bytes().to_vec(),
        language: Language::English,
        item: item.as_bytes().to_vec(),
    }
}

fn state() -> ExtractorState {
    let mut t = ArchiveTable::new();
    t.add(b"http://mathhub.info".to_vec(), b"sTeX/Algebra".to_vec());
    ExtractorState::new(uri(UriKind::Document, "", "doc", ""), t)
}

fn attrs(pairs: &[(&str, &str)]) -> Attributes {
    let mut a = Attributes::new();
    for (n, v) in pairs {
        a.insert(n.as_bytes().to_vec(), v.as_bytes().to_vec());
    }
    a
}

fn messages(s: &ExtractorState) -> Vec<String> {
    s.diagnostics().iter().map(|d| String::from_utf8(d.message.clone()).unwrap()).collect()
}

#[test]
fn the_table_lists_every_key_once() {
    let table = all_rules();
    assert_eq!(table.len(), RULES);
    for (i, k) in table.iter().enumerate() {
        assert_eq!(rule(i as u8), *k);
        assert_eq!(k.attr_name(), format!("shtml:{}", k.as_str()));
        assert!(table.iter().filter(|o| o.attr_name() == k.attr_name()).count() == 1);
    }
    assert_eq!(table[0], SHTMLKey::Module);
    assert_eq!(SHTMLKey::ImportModule.attr_name(), "shtml:import");
    assert_eq!(SHTMLKey::Term.attr_name(), "shtml:term");
}

#[test]
fn a_module_opens_two_scopes_and_consumes_its_attributes() {
    let mut s = state();
    let mut a = attrs(&[
        ("shtml:module", GROUP),
        ("class", "x"),
        ("shtml:language", "en"),
        ("shtml:metatheory", "http://mathhub.info/sTeX/meta?Metatheory"),
        ("shtml:signature", ""),
    ]);
    let e = module(&mut s, &mut a).unwrap();
    match e {
        OpenSHTMLElement::Module { uri: u, meta, signature } => {
            assert_eq!(u, uri(UriKind::Module, "mod", "Group", ""));
            assert_eq!(meta.unwrap().archive, b"sTeX/meta-inf".to_vec());
            assert_eq!(signature, None);
        }
        _ => panic!("not a module"),
    }
    assert_eq!(a.len(), 1);
    assert_eq!(a.value(b"class"), Some(&b"x".to_vec()));
    assert_eq!(s.content_depth(), 1);
    assert_eq!(s.narrative_depth(), 2);
    assert!(!s.has_diagnostics());
}

#[test]
fn a_module_that_cannot_be_resolved_is_an_error_and_opens_nothing() {
    let mut s = state();
    let mut a = attrs(&[("shtml:module", "nowhere")]);
    assert!(module(&mut s, &mut a).is_none());
    assert_eq!(messages(&s), vec!["invalid key nowhere for shtml tag module"]);
    assert_eq!(s.content_depth(), 0);
    assert_eq!(s.narrative_depth(), 1);
    let mut a = attrs(&[("shtml:module", GROUP), ("shtml:signature", "xx")]);
    assert!(module(&mut s, &mut a).is_some());
    assert_eq!(messages(&s).len(), 2);
    assert_eq!(messages(&s)[1], "invalid key xx for shtml tag signature");
}

#[test]
fn structures_and_morphisms_are_symbols_that_are_modules() {
    let mut s = state();
    let mut a = attrs(&[("shtml:mathstructure", "http://mathhub.info/sTeX/Algebra/mod?Group/carrier"), ("shtml:macroname", "grp")]);
    match mathstructure(&mut s, &mut a).unwrap() {
        OpenSHTMLElement::MathStructure { uri: u, macroname } => {
            assert_eq!(u, uri(UriKind::Symbol, "mod", "Group", "carrier"));
            assert_eq!(macroname, Some(b"grp".to_vec()));
        }
        _ => panic!(),
    }
    assert_eq!(a.len(), 0);
    assert_eq!(s.content_depth(), 1);
    let mut a = attrs(&[("shtml:mathstructure", GROUP)]);
    assert!(mathstructure(&mut s, &mut a).is_none());
    assert_eq!(messages(&s), vec!["missing key for shtml tag mathstructure"]);

    let mut s = state();
    let mut a = attrs(&[("shtml:morphism", UNIT), ("shtml:domain", GROUP), ("shtml:total", "true")]);
    match morphism(&mut s, &mut a).unwrap() {
        OpenSHTMLElement::Morphism { uri: u, domain, total } => {
            assert_eq!(u, Some(uri(UriKind::Symbol, "mod", "Group", "unit")));
            assert_eq!(domain, uri(UriKind::Module, "mod", "Group", ""));
            assert!(total);
        }
        _ => panic!(),
    }
    assert_eq!(a.len(), 0);
    let mut a = attrs(&[("shtml:morphism", UNIT)]);
    assert!(morphism(&mut s, &mut a).is_none());
    assert_eq!(messages(&s), vec!["missing key for shtml tag domain"]);
    let mut a = attrs(&[("shtml:domain", GROUP)]);
    assert!(morphism(&mut s, &mut a).is_none());
    assert_eq!(messages(&s)[1], "missing key for shtml tag morphism");
}

#[test]
fn sections_take_their_identifier_or_are_given_one() {
    let mut s = state();
    let mut a = attrs(&[("shtml:section", "2")]);
    match section(&mut s, &mut a).unwrap() {
        OpenSHTMLElement::Section { lvl, uri: u } => {
            assert_eq!(lvl, SectionLevel::Section);
            assert_eq!(u, uri(UriKind::Element, "", "doc", "section_0"));
        }
        _ => panic!(),
    }
    let mut a = attrs(&[("shtml:section", "3"), ("shtml:id", "intro")]);
    match section(&mut s, &mut a).unwrap() {
        OpenSHTMLElement::Section { lvl, uri: u } => {
            assert_eq!(lvl, SectionLevel::Subsection);
            assert_eq!(u, uri(UriKind::Element, "", "doc", "section_0/intro"));
        }
        _ => panic!(),
    }
    assert_eq!(s.narrative_depth(), 3);
    let mut a = attrs(&[("shtml:section", "9")]);
    assert!(section(&mut s, &mut a).is_none());
    assert_eq!(messages(&s), vec!["invalid key 9 for shtml tag section"]);
    assert_eq!(s.new_id(b"x"), b"x_1".to_vec());
}

#[test]
fn paragraphs_resolve_what_they_are_about() {
    let mut s = state();
    let fors = format!("{UNIT} , bogus");
    let mut a = attrs(&[("shtml:definition", ""), ("shtml:fors", &fors), ("shtml:styles", "a, b"), ("shtml:inline", "true")]);
    match do_paragraph(&mut s, &mut a, ParagraphKind::Definition).unwrap() {
        OpenSHTMLElement::Paragraph { kind, inline, styles, uri: u, fors } => {
            assert_eq!(kind, ParagraphKind::Definition);
            assert!(inline);
            assert_eq!(styles, vec![b"a".to_vec(), b"b".to_vec()]);
            assert_eq!(u, uri(UriKind::Element, "", "doc", "definition_0"));
            assert_eq!(fors, vec![uri(UriKind::Symbol, "mod", "Group", "unit")]);
        }
        _ => panic!(),
    }
    assert_eq!(messages(&s), vec!["invalid key bogus for shtml tag fors"]);
    assert_eq!(a.len(), 4);
}

#[test]
fn declarations_of_symbols_and_variables() {
    let mut s = state();
    let mut a = attrs(&[
        ("shtml:symdecl", UNIT),
        ("shtml:args", "iab"),
        ("shtml:assoctype", "binr"),
        ("shtml:role", "x , y"),
        ("shtml:macroname", "unit"),
    ]);
    match symdecl(&mut s, &mut a).unwrap() {
        OpenSHTMLElement::Symdecl { uri: u, arity, macroname, role, assoctype, reordering } => {
            assert_eq!(u, uri(UriKind::Symbol, "mod", "Group", "unit"));
            assert_eq!(arity, vec![ArgMode::Normal, ArgMode::Sequence, ArgMode::Binding]);
            assert_eq!(macroname, Some(b"unit".to_vec()));
            assert_eq!(role, vec![b"x".to_vec(), b"y".to_vec()]);
            assert_eq!(assoctype, Some(AssocType::RightAssociativeBinary));
            assert_eq!(reordering, None);
        }
        _ => panic!(),
    }
    assert_eq!(s.frame_depth(), 1);
    let mut a = attrs(&[("shtml:symdecl", UNIT), ("shtml:args", "3"), ("shtml:assoctype", "nope")]);
    match symdecl(&mut s, &mut a).unwrap() {
        OpenSHTMLElement::Symdecl { arity, assoctype, .. } => {
            assert_eq!(arity, vec![ArgMode::Normal; 3]);
            assert_eq!(assoctype, None);
        }
        _ => panic!(),
    }
    assert_eq!(messages(&s), vec!["invalid key nope for shtml tag assoctype"]);
    let mut a = attrs(&[("shtml:symdecl", "")]);
    assert!(symdecl(&mut s, &mut a).is_none());
    assert_eq!(messages(&s)[1], "invalid key  for shtml tag symdecl");

    let mut s = state();
    let mut a = attrs(&[("shtml:varseq", "xs"), ("shtml:bind", "true")]);
    match do_vardecl(&mut s, &mut a, SHTMLKey::Varseq, true).unwrap() {
        OpenSHTMLElement::Vardecl { uri: u, bind, is_seq, .. } => {
            assert_eq!(u, uri(UriKind::Element, "", "doc", "xs"));
            assert!(bind && is_seq);
        }
        _ => panic!(),
    }
    let mut a = attrs(&[("shtml:vardef", "")]);
    assert!(do_vardecl(&mut s, &mut a, SHTMLKey::Vardef, false).is_none());
    assert_eq!(messages(&s), vec!["missing key for shtml tag vardef"]);
}

#[test]
fn notations() {
    let mut s = state();
    let mut a = attrs(&[("shtml:notation", UNIT), ("shtml:precedence", "-5"), ("shtml:argprecs", "1, 2,,3")]);
    match notation(&mut s, &mut a).unwrap() {
        OpenSHTMLElement::Notation { id, symbol, precedence, argprecs } => {
            assert_eq!(id, b"notation_0".to_vec());
            assert_eq!(symbol, VarOrSym::S(uri(UriKind::Symbol, "mod", "Group", "unit")));
            assert_eq!(precedence, -5);
            assert_eq!(argprecs, vec![1, 2, 3]);
        }
        _ => panic!(),
    }
    assert!(s.in_notation());
    assert_eq!(s.notations(), &vec![b"notation_0".to_vec()]);
    let mut a = attrs(&[("shtml:notation", "x"), ("shtml:notationfragment", "infix")]);
    match notation(&mut s, &mut a).unwrap() {
        OpenSHTMLElement::Notation { id, symbol, precedence, argprecs } => {
            assert_eq!(id, b"infix_1".to_vec());
            assert_eq!(symbol, VarOrSym::V(PreVar::Unresolved(b"x".to_vec())));
            assert_eq!(precedence, 0);
            assert!(argprecs.is_empty());
        }
        _ => panic!(),
    }
    let mut a = attrs(&[("shtml:notation", "x"), ("shtml:argprecs", "1,x")]);
    assert!(notation(&mut s, &mut a).is_none());
    let mut a = attrs(&[("shtml:notation", "x"), ("shtml:precedence", "high")]);
    assert!(notation(&mut s, &mut a).is_none());
    let mut a = attrs(&[("class", "x")]);
    assert!(notation(&mut s, &mut a).is_none());
    assert_eq!(
        messages(&s),
        vec![
            "missing key for shtml tag argprecs",
            "missing key for shtml tag precedence",
            "missing key for shtml tag notation"
        ]
    );
}

#[test]
fn terms_by_kind_and_head() {
    let mut s = state();
    let mut a = attrs(&[("shtml:term", "OMA"), ("shtml:head", UNIT), ("shtml:notationid", "n1")]);
    match term(&mut s, &mut a).unwrap() {
        OpenSHTMLElement::OpenTerm { term: OpenTerm::OMA { head, notation }, is_top } => {
            assert_eq!(head, VarOrSym::S(uri(UriKind::Symbol, "mod", "Group", "unit")));
            assert_eq!(notation, Some(b"n1".to_vec()));
            assert!(is_top);
        }
        _ => panic!(),
    }
    assert!(s.in_term());
    assert_eq!(s.frame_depth(), 1);
    let mut a = attrs(&[("shtml:term", "OMV"), ("shtml:head", "x")]);
    match term(&mut s, &mut a).unwrap() {
        OpenSHTMLElement::OpenTerm { term: OpenTerm::Varref { name, notation }, is_top } => {
            assert_eq!(name, PreVar::Unresolved(b"x".to_vec()));
            assert_eq!(notation, None);
            assert!(!is_top);
        }
        _ => panic!(),
    }
    let mut a = attrs(&[("shtml:term", "OMID"), ("shtml:head", UNIT)]);
    assert!(matches!(
        term(&mut s, &mut a).unwrap(),
        OpenSHTMLElement::OpenTerm { term: OpenTerm::Symref { .. }, is_top: false }
    ));
    let mut a = attrs(&[("shtml:term", "complex"), ("shtml:head", "x")]);
    assert!(matches!(
        term(&mut s, &mut a).unwrap(),
        OpenSHTMLElement::OpenTerm { term: OpenTerm::Complex(_), .. }
    ));
    let mut a = attrs(&[("shtml:term", "OML"), ("shtml:head", "label")]);
    assert!(matches!(term(&mut s, &mut a).unwrap(), OpenSHTMLElement::OpenTerm { term: OpenTerm::OML { .. }, .. }));
    assert!(!s.has_diagnostics());
    assert_eq!(s.frame_depth(), 3);
}

#[test]
fn terms_that_are_malformed_are_reported_and_read_as_applications() {
    let mut s = state();
    let mut a = attrs(&[("shtml:term", "OMV")]);
    match term(&mut s, &mut a).unwrap() {
        OpenSHTMLElement::OpenTerm { term: OpenTerm::Varref { name, .. }, .. } => {
            assert_eq!(name, PreVar::Unresolved(b"ERROR".to_vec()));
        }
        _ => panic!(),
    }
    let mut a = attrs(&[("shtml:term", "bogus"), ("shtml:head", "x")]);
    assert!(matches!(term(&mut s, &mut a).unwrap(), OpenSHTMLElement::OpenTerm { term: OpenTerm::OMA { .. }, .. }));
    let mut a = attrs(&[("shtml:term", "OMV"), ("shtml:head", UNIT)]);
    assert!(matches!(term(&mut s, &mut a).unwrap(), OpenSHTMLElement::OpenTerm { term: OpenTerm::OMA { .. }, .. }));
    assert_eq!(
        messages(&s),
        vec![
            "missing shtml:head attribute for term".to_string(),
            "invalid term kind bogus".to_string(),
            format!("invalid head http://mathhub.info?a=sTeX/Algebra&p=mod&m=Group&l=en&s=unit for term kind OMV"),
        ]
    );
}

#[test]
fn inside_a_notation_terms_are_not_read() {
    let mut s = state();
    s.open_notation(b"n");
    let mut a = attrs(&[("shtml:term", "OMA"), ("shtml:head", UNIT)]);
    assert!(term(&mut s, &mut a).is_none());
    assert!(!s.in_term());
    assert_eq!(s.frame_depth(), 1);
}

#[test]
fn a_head_that_is_both_a_symbol_and_a_module_is_the_symbol() {
    let s = state();
    // the reference names the symbol `unit` of `Group`, and also the module `unit` at `mod?Group`
    assert!(s.get_sym_uri(UNIT.as_bytes()).is_some());
    assert!(s.get_mod_uri(UNIT.as_bytes()).is_some());
    assert_eq!(resolve_head(&s, UNIT.as_bytes()), VarOrSym::S(uri(UriKind::Symbol, "mod", "Group", "unit")));
    // a module only
    assert!(s.get_sym_uri(b"http://mathhub.info/sTeX/Algebra?Group").is_none());
    assert_eq!(
        resolve_head(&s, b"http://mathhub.info/sTeX/Algebra?Group"),
        VarOrSym::S(uri(UriKind::Module, "", "Group", ""))
    );
    // an element of a document
    match resolve_head(&s, b"http://x?a=y&d=doc&e=var") {
        VarOrSym::V(PreVar::Resolved(u)) => assert_eq!(u.kind, UriKind::Element),
        other => panic!("{other:?}"),
    }
    // none of these
    assert_eq!(resolve_head(&s, b"x"), VarOrSym::V(PreVar::Unresolved(b"x".to_vec())));
}

#[test]
fn types_and_definientia_switch_term_reading_on() {
    let mut s = state();
    let mut a = attrs(&[("shtml:type", "")]);
    assert_eq!(type_rule(&mut s, &mut a), Some(OpenSHTMLElement::Type));
    assert!(s.in_term());
    assert_eq!(type_rule(&mut s, &mut a), None);
    assert_eq!(messages(&s), vec!["invalid key in shtml element"]);
    let mut a = attrs(&[("shtml:definiens", "")]);
    assert_eq!(definiens(&mut s, &mut a), Some(OpenSHTMLElement::Definiens { uri: None, in_term: true }));
    assert_eq!(messages(&s).len(), 1);
    let mut a = attrs(&[("shtml:definiens", "bogus")]);
    assert_eq!(definiens(&mut s, &mut a), Some(OpenSHTMLElement::Definiens { uri: None, in_term: true }));
    assert_eq!(messages(&s)[1], "invalid key bogus for shtml tag definiens");
}

#[test]
fn argument_markers() {
    let mut s = state();
    let cases: [(&[(&str, &str)], Option<OpenArg>); 8] = [
        (&[("shtml:arg", "1")], Some(OpenArg { index: 1, position: None, mode: ArgMode::Normal })),
        (&[("shtml:arg", "12")], Some(OpenArg { index: 1, position: Some(2), mode: ArgMode::Normal })),
        (&[("shtml:arg", "2"), ("shtml:argmode", "a")], Some(OpenArg { index: 2, position: None, mode: ArgMode::Sequence })),
        (&[("shtml:arg", "9"), ("shtml:argmode", "B")], Some(OpenArg { index: 9, position: None, mode: ArgMode::BindingSequence })),
        (&[("shtml:arg", "0")], None),
        (&[("shtml:arg", "")], None),
        (&[("shtml:arg", "1"), ("shtml:argmode", "zz")], None),
        (&[("shtml:arg", "1x")], None),
    ];
    let mut errors = 0;
    for (pairs, expected) in cases {
        let mut a = attrs(pairs);
        assert_eq!(arg(&mut s, &mut a), expected.map(OpenSHTMLElement::Arg));
        if expected.is_none() {
            errors += 1;
        }
        assert_eq!(messages(&s).len(), errors);
    }
    assert_eq!(messages(&s)[0], "invalid or missing argument marker");
}

#[test]
fn input_references() {
    let mut s = state();
    let mut a = attrs(&[("shtml:inputref", "http://mathhub.info/sTeX/Algebra/sub/other.en.tex")]);
    match inputref(&mut s, &mut a).unwrap() {
        OpenSHTMLElement::Inputref { uri: u, id } => {
            assert_eq!(u, uri(UriKind::Document, "sub", "other", ""));
            assert_eq!(id, b"other_0".to_vec());
        }
        _ => panic!(),
    }
    let mut a = attrs(&[("shtml:inputref", "nowhere")]);
    assert!(inputref(&mut s, &mut a).is_none());
    assert_eq!(messages(&s), vec!["invalid key nowhere for shtml tag inputref"]);
}

#[test]
fn dispatch_leaves_plain_elements_alone() {
    let mut s = state();
    let mut a = attrs(&[("class", "x"), ("id", "y")]);
    assert!(applicable_rules(&mut s, &mut a).is_none());
    assert_eq!(a.len(), 2);
    assert!(!s.has_diagnostics());
    assert!(s.notices().is_empty());
}

#[test]
fn dispatch_remarks_on_unknown_attributes_without_failing() {
    let mut s = state();
    let mut a = attrs(&[("shtml:bogus", "v"), ("shtml:comp", "")]);
    let elems = applicable_rules(&mut s, &mut a).unwrap();
    assert_eq!(elems.elems, vec![OpenSHTMLElement::Comp]);
    assert!(!s.has_diagnostics());
    assert_eq!(s.notices().len(), 1);
    assert_eq!(s.notices()[0].level, DiagnosticLevel::Warning);
    assert_eq!(s.notices()[0].message, b"Unknown shtml attribute: shtml:bogus = v".to_vec());
    let mut a = attrs(&[("shtml:bogus", "v")]);
    assert!(applicable_rules(&mut s, &mut a).is_none());
    assert_eq!(s.notices().len(), 2);
}

#[test]
fn dispatch_runs_rules_in_table_order_whatever_the_order_of_the_attributes() {
    for pairs in [
        [("shtml:arg", "1"), ("shtml:head", UNIT), ("shtml:term", "OMID")],
        [("shtml:term", "OMID"), ("shtml:arg", "1"), ("shtml:head", UNIT)],
    ] {
        let mut s = state();
        let mut a = attrs(&pairs);
        let elems = applicable_rules(&mut s, &mut a).unwrap();
        assert_eq!(elems.len(), 2);
        assert!(matches!(elems.elems[0], OpenSHTMLElement::OpenTerm { .. }));
        assert!(matches!(elems.elems[1], OpenSHTMLElement::Arg(_)));
    }
    let mut s = state();
    let mut a = attrs(&[("shtml:symdecl", UNIT), ("shtml:module", GROUP)]);
    let elems = applicable_rules(&mut s, &mut a).unwrap();
    assert!(matches!(elems.elems[0], OpenSHTMLElement::Module { .. }));
    assert!(matches!(elems.elems[1], OpenSHTMLElement::Symdecl { .. }));
}

#[test]
fn component_markers_strike_the_rules_of_terms() {
    let mut s = state();
    let mut a = attrs(&[
        ("shtml:term", "OMA"),
        ("shtml:head", UNIT),
        ("shtml:invisible", "true"),
        ("shtml:notationcomp", ""),
        ("shtml:arg", "1"),
        ("class", "c"),
    ]);
    let elems = applicable_rules(&mut s, &mut a).unwrap();
    assert_eq!(elems.elems, vec![
        OpenSHTMLElement::NotationComp,
        OpenSHTMLElement::Arg(OpenArg { index: 1, position: None, mode: ArgMode::Normal }),
    ]);
    assert!(!s.in_term());
    assert_eq!(a.len(), 2);
    assert!(a.contains(b"shtml:arg") && a.contains(b"class"));

    let mut s = state();
    let mut a = attrs(&[("shtml:argsep", ""), ("shtml:term", "OMA"), ("shtml:head", UNIT)]);
    let elems = applicable_rules(&mut s, &mut a).unwrap();
    assert_eq!(elems.elems, vec![OpenSHTMLElement::ArgSep]);
    assert_eq!(a.len(), 0);
}

#[test]
fn the_queue_of_rules() {
    let mut q = RuleQueue::new();
    assert!(q.is_empty());
    q.push(3);
    q.push(5);
    assert!(!q.is_empty());
    assert_eq!(q.pop(), Some(5));
    assert_eq!(q.pop(), Some(3));
    assert_eq!(q.pop(), None);
    let all = all_rules();
    let position = |k: SHTMLKey| all.iter().position(|o| *o == k).unwrap() as u8;
    for k in [SHTMLKey::Arg, SHTMLKey::Term, SHTMLKey::Module, SHTMLKey::Head, SHTMLKey::ArgSep] {
        q.push(position(k));
    }
    q.strike(SHTMLKey::ArgSep);
    assert_eq!(q.pop(), Some(position(SHTMLKey::Module)));
    assert_eq!(q.pop(), Some(position(SHTMLKey::Arg)));
    assert_eq!(q.pop(), None);
    let term = all_rules().iter().position(|k| *k == SHTMLKey::Term).unwrap() as u8;
    let arg = all_rules().iter().position(|k| *k == SHTMLKey::Arg).unwrap() as u8;
    assert!(!keeps(SHTMLKey::NotationComp, term));
    assert!(keeps(SHTMLKey::NotationComp, arg));
    assert!(keeps(SHTMLKey::Module, term));
    assert!(keeps(SHTMLKey::ArgSep, 200));
}

#[test]
fn a_rule_without_an_element_changes_nothing() {
    let mut s = state();
    let mut a = attrs(&[("shtml:head", UNIT)]);
    let mut q = RuleQueue::new();
    assert_eq!(apply(SHTMLKey::Head, &mut s, &mut a, &mut q), None);
    assert_eq!(apply(SHTMLKey::Language, &mut s, &mut a, &mut q), None);
    assert_eq!(a.len(), 1);
    assert!(!s.has_diagnostics());
}
