use shtml_extraction::attributes::Attributes;
use shtml_extraction::content::{find_declaration, paragraphs, sections};
use shtml_extraction::dispatch::SHTMLExtractionRule;
use shtml_extraction::open::SHTMLElements;
use shtml_extraction::paragraphs::{ParagraphKind, UncheckedLogicalParagraph};
use shtml_extraction::queue::RuleQueue;
use shtml_extraction::getters::{
    get_bool, get_id, get_list, get_section_level, read_list, remove, take_bool, take_language, update,
};
use shtml_extraction::keys::SHTMLKey;
use shtml_extraction::open::OpenSHTMLElement;
use shtml_extraction::resolve::ArchiveTable;
use shtml_extraction::resources::{add_resource, frame_resources, LazyDocRef};
use shtml_extraction::sections::{DocumentRange, SectionLevel, UncheckedSection};
use shtml_extraction::state::{ExtractorState, Record};
use shtml_extraction::terms::{parse_arity, ArgMode, AssocType, CognitiveDimension, OpenTermKind};
use shtml_extraction::uris::{Language, Uri, UriKind};

fn uri(kind: UriKind, name: &str, item: &str) -> Uri {
    Uri {
        kind,
        base: b"http://x".to_vec(),
        archive: b"a".to_vec(),
        path: Vec::new(),
        name: name.as_bytes().to_vec(),
        language: Language::English,
        item: item.as_bytes().to_vec(),
    }
}

fn attrs(pairs: &[(&str, &str)]) -> Attributes {
    let mut a = Attributes::new();
    for (n, v) in pairs {
        a.insert(n.as_bytes().to_vec(), v.as_bytes().to_vec());
    }
    a
}

#[test]
fn section_levels_and_their_numbers() {
    let levels = [
        SectionLevel::Part, SectionLevel::Chapter, SectionLevel::Section, SectionLevel::Subsection,
        SectionLevel::Subsubsection, SectionLevel::Paragraph, SectionLevel::Subparagraph,
    ];
    for (i, l) in levels.iter().enumerate() {
        assert_eq!(SectionLevel::try_from(i as u8), Ok(*l));
        assert_eq!(u8::from(*l), i as u8);
    }
    assert_eq!(SectionLevel::try_from(7), Err(()));
    assert_eq!(SectionLevel::try_from(255), Err(()));
    assert_eq!(SectionLevel::Subsubsection.to_string(), "Subsubsection");
    assert_eq!(SectionLevel::Part.to_string(), "Part");
}

#[test]
fn attributes_keep_their_order_and_their_names_apart() {
    let mut a = Attributes::new();
    assert!(a.insert(b"a".to_vec(), b"1".to_vec()));
    assert!(a.insert(b"b".to_vec(), b"2".to_vec()));
    assert!(!a.insert(b"a".to_vec(), b"3".to_vec()));
    assert_eq!(a.len(), 2);
    assert_eq!(a.value(b"a"), Some(&b"1".to_vec()));
    assert_eq!(a.find(b"b"), Some(1));
    a.set(b"a".to_vec(), b"<4>".to_vec());
    a.set(b"c".to_vec(), b"5".to_vec());
    assert_eq!((a.name_at(0), a.value_at(0)), (&b"a".to_vec(), &b"<4>".to_vec()));
    assert_eq!(a.name_at(2), &b"c".to_vec());
    let mut out = Vec::new();
    a.write_markup(&mut out);
    assert_eq!(String::from_utf8(out.clone()).unwrap(), " a=\"&lt;4&gt;\" b=\"2\" c=\"5\"");
    assert_eq!(a.markup_len(), Some(out.len()));
    assert_eq!(a.remove(b"b"), Some(b"2".to_vec()));
    assert_eq!(a.remove(b"b"), None);
    assert!(!a.contains(b"b") && a.contains(b"c"));
    assert_eq!(a.name_at(1), &b"c".to_vec());
    assert_eq!(Attributes::new().markup_len(), Some(0));
}

#[test]
fn typed_access_to_attributes() {
    let mut a = attrs(&[
        ("shtml:inline", "true"),
        ("shtml:bind", "yes"),
        ("shtml:styles", " a ,b,, c "),
        ("shtml:section", "06"),
        ("shtml:language", "fr"),
        ("shtml:id", "given"),
    ]);
    assert!(get_bool(&a, SHTMLKey::Inline));
    assert!(!get_bool(&a, SHTMLKey::Bind));
    assert!(!get_bool(&a, SHTMLKey::Autogradable));
    assert_eq!(get_list(&a, SHTMLKey::Styles), vec![b"a".to_vec(), b"b".to_vec(), b"".to_vec(), b"c".to_vec()]);
    assert!(get_list(&a, SHTMLKey::Role).is_empty());
    assert_eq!(read_list(b""), vec![b"".to_vec()]);
    assert_eq!(get_section_level(&a, SHTMLKey::Section), Ok(SectionLevel::Subparagraph));
    assert!(get_section_level(&a, SHTMLKey::SetSectionLevel).is_err());
    assert_eq!(take_language(&mut a, SHTMLKey::Language), Ok(Language::French));
    assert!(take_language(&mut a, SHTMLKey::Language).is_err());
    assert!(take_bool(&mut a, SHTMLKey::Inline));
    assert!(!take_bool(&mut a, SHTMLKey::Inline));
    assert_eq!(remove(&mut a, SHTMLKey::Bind), Some(b"yes".to_vec()));
    assert_eq!(a.len(), 3);
    let mut s = ExtractorState::new(uri(UriKind::Document, "doc", ""), ArchiveTable::new());
    assert_eq!(get_id(&a, &mut s, b"p"), b"given".to_vec());
    assert_eq!(get_id(&Attributes::new(), &mut s, b"p"), b"p_0".to_vec());
    update(&mut a, SHTMLKey::Symdecl, &uri(UriKind::Symbol, "m", "s"));
    update(&mut a, SHTMLKey::Section, &uri(UriKind::Module, "m", ""));
    assert_eq!(a.value(b"shtml:symdecl"), Some(&b"http://x?a=a&m=m&l=en&s=s".to_vec()));
    assert_eq!(a.value(b"shtml:section"), Some(&b"http://x?a=a&m=m&l=en".to_vec()));
    assert_eq!(a.name_at(1), &b"shtml:section".to_vec());
    assert_eq!(a.len(), 4);
}

#[test]
fn keywords() {
    assert_eq!(OpenTermKind::parse(b"OMA"), Some(OpenTermKind::OMA));
    assert_eq!(OpenTermKind::parse(b"OMBIND"), Some(OpenTermKind::OMA));
    assert_eq!(OpenTermKind::parse(b"OMMOD"), Some(OpenTermKind::OMID));
    assert_eq!(OpenTermKind::parse(b"complex"), Some(OpenTermKind::Complex));
    assert_eq!(OpenTermKind::parse(b"oma"), None);
    assert_eq!(OpenTermKind::OML.as_str(), "OML");
    assert_eq!(AssocType::from_str(b"bin"), Some(AssocType::LeftAssociativeBinary));
    assert_eq!(AssocType::from_str(b"binl"), Some(AssocType::LeftAssociativeBinary));
    assert_eq!(AssocType::from_str(b"pwconj"), Some(AssocType::PairwiseConjunctive));
    assert_eq!(AssocType::from_str(b"conj"), Some(AssocType::Conjunctive));
    assert_eq!(AssocType::from_str(b"pre"), Some(AssocType::Prenex));
    assert_eq!(AssocType::from_str(b""), None);
    assert_eq!(CognitiveDimension::from_str(b"analyse"), Some(CognitiveDimension::Analyze));
    assert_eq!(CognitiveDimension::from_str(b"remember"), Some(CognitiveDimension::Remember));
    assert_eq!(CognitiveDimension::from_str(b"Remember"), None);
    assert_eq!(parse_arity(b""), Some(Vec::new()));
    assert_eq!(parse_arity(b"0"), Some(Vec::new()));
    assert_eq!(parse_arity(b"2"), Some(vec![ArgMode::Normal, ArgMode::Normal]));
    assert_eq!(parse_arity(b"iB"), Some(vec![ArgMode::Normal, ArgMode::BindingSequence]));
    assert_eq!(parse_arity(b"ix"), None);
    assert_eq!(parse_arity(b"256"), None);
}

#[test]
fn handles_cut_the_encoded_values_out_of_the_buffer() {
    let owner = uri(UriKind::Document, "doc", "");
    let mut buffer = b"xy".to_vec();
    let h = add_resource(&mut buffer, b"abc", &owner);
    assert_eq!(h, LazyDocRef { offset: 2, len: 3, owner: owner.clone() });
    assert_eq!(buffer, b"xyabc".to_vec());
    assert_eq!(LazyDocRef::new(1, 2, owner.clone()).len, 2);
    let encoded = vec![b"first".to_vec(), Vec::new(), b"third!".to_vec()];
    let (buffer, handles) = frame_resources(&encoded, &owner);
    assert_eq!(buffer, b"firstthird!".to_vec());
    assert_eq!(handles.iter().map(|h| (h.offset, h.len)).collect::<Vec<_>>(), vec![(0, 5), (5, 0), (5, 6)]);
    for (h, e) in handles.iter().zip(&encoded) {
        assert_eq!(&buffer[h.offset..h.offset + h.len], &e[..]);
        assert_eq!(h.owner, owner);
    }
    assert_eq!(frame_resources(&Vec::new(), &owner), (Vec::new(), Vec::new()));
}

fn record(depth: usize, element: OpenSHTMLElement) -> Record {
    Record { depth, range: DocumentRange { start: depth, end: 10 }, title: None, element, first: None, second: None }
}

fn symbol(name: &str, item: &str) -> OpenSHTMLElement {
    OpenSHTMLElement::Symdecl {
        uri: uri(UriKind::Symbol, name, item),
        arity: Vec::new(),
        macroname: None,
        role: Vec::new(),
        assoctype: None,
        reordering: None,
    }
}

fn module(name: &str) -> OpenSHTMLElement {
    OpenSHTMLElement::Module { uri: uri(UriKind::Module, name, ""), meta: None, signature: None }
}

#[test]
fn declarations_are_found_by_the_steps_of_their_names() {
    // A { x, B { y, x }, S(structure) { z } }, C { x }
    let records = vec![
        record(1, symbol("A", "x")),
        record(2, symbol("A/B", "y")),
        record(2, symbol("A/B", "x")),
        record(1, module("A/B")),
        record(2, symbol("A/S", "z")),
        record(1, OpenSHTMLElement::MathStructure { uri: uri(UriKind::Symbol, "A", "S"), macroname: None }),
        record(0, module("A")),
        record(1, symbol("C", "x")),
        record(0, module("C")),
    ];
    let find = |steps: &[&str]| find_declaration(&records, &steps.iter().map(|s| s.as_bytes().to_vec()).collect());
    assert_eq!(find(&["A"]), Some(6));
    assert_eq!(find(&["C"]), Some(8));
    assert_eq!(find(&["A", "x"]), Some(0));
    assert_eq!(find(&["C", "x"]), Some(7));
    assert_eq!(find(&["A", "B"]), Some(3));
    assert_eq!(find(&["A", "B", "x"]), Some(2));
    assert_eq!(find(&["A", "B", "y"]), Some(1));
    assert_eq!(find(&["A", "S", "z"]), Some(4));
    assert_eq!(find(&["A", "y"]), None);
    assert_eq!(find(&["A", "x", "y"]), None);
    assert_eq!(find(&["B"]), None);
    assert_eq!(find(&["x"]), None);
    assert_eq!(find(&[]), None);
    assert_eq!(find_declaration(&Vec::new(), &vec![b"A".to_vec()]), None);
}

#[test]
fn the_sections_of_a_narrative() {
    let u = uri(UriKind::Element, "doc", "s");
    let mut with_title = record(0, OpenSHTMLElement::Section { lvl: SectionLevel::Chapter, uri: u.clone() });
    with_title.title = Some(DocumentRange { start: 1, end: 2 });
    let records = vec![
        record(1, OpenSHTMLElement::Section { lvl: SectionLevel::Section, uri: u.clone() }),
        record(1, OpenSHTMLElement::Definiendum(u.clone())),
        with_title,
    ];
    assert_eq!(
        sections(&records),
        vec![
            UncheckedSection { range: DocumentRange { start: 1, end: 10 }, uri: u.clone(), level: SectionLevel::Section, title: None },
            UncheckedSection {
                range: DocumentRange { start: 0, end: 10 },
                uri: u,
                level: SectionLevel::Chapter,
                title: Some(DocumentRange { start: 1, end: 2 })
            },
        ]
    );
    assert!(sections(&Vec::new()).is_empty());
}

#[test]
fn pending_elements_are_listed_in_the_order_of_their_closing() {
    let mut elems = SHTMLElements::new();
    assert!(elems.iter().is_empty());
    elems.push(OpenSHTMLElement::Comp);
    elems.push(OpenSHTMLElement::Title);
    elems.push(OpenSHTMLElement::Type);
    assert_eq!(elems.iter(), vec![&OpenSHTMLElement::Type, &OpenSHTMLElement::Title, &OpenSHTMLElement::Comp]);
    assert_eq!(elems.pop(), Some(OpenSHTMLElement::Type));
    assert_eq!(elems.take(), vec![OpenSHTMLElement::Comp, OpenSHTMLElement::Title]);
}

#[test]
fn an_entry_of_the_table_answers_to_its_attribute_and_runs_its_rule() {
    let entry = SHTMLExtractionRule::new(SHTMLKey::Comp);
    assert_eq!(entry.attr(), "shtml:comp");
    assert!(entry.applies(b"shtml:comp"));
    assert!(!entry.applies(b"shtml:maincomp") && !entry.applies(b"comp"));
    let mut s = ExtractorState::new(uri(UriKind::Document, "doc", ""), ArchiveTable::new());
    let mut a = attrs(&[("shtml:comp", "")]);
    let mut q = RuleQueue::new();
    assert_eq!(entry.call(&mut s, &mut a, &mut q), Some(OpenSHTMLElement::Comp));
    let section = SHTMLExtractionRule::new(SHTMLKey::Section);
    assert_eq!(section.call(&mut s, &mut a, &mut q), None);
    assert_eq!(s.diagnostics()[0].message, b"missing key for shtml tag section".to_vec());
}

#[test]
fn the_paragraphs_of_a_narrative() {
    let u = uri(UriKind::Element, "doc", "p");
    let about = uri(UriKind::Symbol, "m", "s");
    let mut first = record(
        1,
        OpenSHTMLElement::Paragraph {
            kind: ParagraphKind::Assertion,
            inline: true,
            styles: vec![b"wide".to_vec()],
            uri: u.clone(),
            fors: vec![about.clone()],
        },
    );
    first.title = Some(DocumentRange { start: 4, end: 5 });
    let records = vec![first, record(0, OpenSHTMLElement::Section { lvl: SectionLevel::Part, uri: u.clone() })];
    assert_eq!(
        paragraphs(&records),
        vec![UncheckedLogicalParagraph {
            kind: ParagraphKind::Assertion,
            uri: u,
            inline: true,
            title: Some(DocumentRange { start: 4, end: 5 }),
            range: DocumentRange { start: 1, end: 10 },
            styles: vec![b"wide".to_vec()],
            fors: vec![about],
        }]
    );
    assert!(paragraphs(&Vec::new()).is_empty());
}
