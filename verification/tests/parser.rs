use shtml_extraction::attributes::Attribute;
use shtml_extraction::content::ModuleTrait;
use shtml_extraction::open::{OpenSHTMLElement, OpenTerm};
use shtml_extraction::parser::{create_element, Event, HTMLParser, NodeOrText, CSS};
use shtml_extraction::resolve::ArchiveTable;
use shtml_extraction::sections::DocumentRange;
use shtml_extraction::state::{Predicate, Resource};
use shtml_extraction::terms::{ArgMode, OpenArg, TermNode};
use shtml_extraction::tree::{Tree, TreeError};
use shtml_extraction::uris::{Language, Uri, UriKind};

const MODULE: &str = "http://x?a=y/archive&d=foo";
const SYMBOL: &str = "http://x?a=y/archive&d=foo&l=en&s=bar";
const SYMBOL_TEXT: &str = "http://x?a=y/archive&m=foo&l=en&s=bar";
const MODULE_TEXT: &str = "http://x?a=y/archive&m=foo&l=en";

fn uri(kind: UriKind, name: &str, item: &str) -> Uri {
    Uri {
        kind,
        base: b"http://x".to_vec(),
        archive: b"y/archive".to_vec(),
        path: Vec::new(),
        name: name.as_bytes().to_vec(),
        language: Language::English,
        item: item.as_bytes().to_vec(),
    }
}

fn parser() -> HTMLParser {
    HTMLParser::new(uri(UriKind::Document, "doc", ""), ArchiveTable::new())
}

fn node(name: &str, pairs: &[(&str, &str)]) -> NodeOrText {
    let attrs = pairs
        .iter()
        .map(|(n, v)| Attribute { name: n.as_bytes().to_vec(), value: v.as_bytes().to_vec() })
        .collect();
    NodeOrText::node(create_element(name.as_bytes().to_vec(), true, attrs))
}

fn el(p: &mut HTMLParser, parent: usize, name: &str, pairs: &[(&str, &str)]) -> usize {
    p.append(parent, node(name, pairs)).unwrap()
}

fn txt(p: &mut HTMLParser, parent: usize, text: &str) -> usize {
    p.append(parent, NodeOrText::text(text.as_bytes().to_vec())).unwrap()
}

fn range(tree: &Tree, id: usize) -> DocumentRange {
    DocumentRange { start: tree.start(id), end: tree.end(id) }
}

fn assert_ranges(tree: &Tree) {
    let html = tree.serialize();
    for id in 0..tree.len() {
        let mut up = id;
        let mut attached = true;
        while up != 0 {
            match tree.parent(up) {
                Some(p) => up = p,
                None => {
                    attached = false;
                    break;
                }
            }
        }
        if attached {
            assert_eq!(&html[tree.start(id)..tree.end(id)], &tree.serialize_node(id)[..], "node {id}");
        }
    }
}

/// The skeleton that a markup parser builds around a body.
fn skeleton(p: &mut HTMLParser) -> (usize, usize) {
    let html = el(p, 0, "html", &[]);
    let head = el(p, html, "head", &[]);
    p.pop(head);
    let body = el(p, html, "body", &[]);
    (html, body)
}

#[test]
fn a_module_with_one_symbol() {
    let mut p = parser();
    let (_, body) = skeleton(&mut p);
    let div = el(&mut p, body, "div", &[]);
    let outer = el(&mut p, div, "span", &[("shtml:module", MODULE), ("shtml:language", "en")]);
    let inner = el(&mut p, outer, "span", &[("shtml:symdecl", SYMBOL)]);
    txt(&mut p, inner, "bar");
    p.pop(inner);
    p.pop(outer);
    p.pop(div);
    assert_ranges(p.tree());
    let (inner_range, outer_range, body_range, div_range) =
        (range(p.tree(), inner), range(p.tree(), outer), range(p.tree(), body), range(p.tree(), div));
    let bundle = p.finish().unwrap();

    let html = String::from_utf8(bundle.html.clone()).unwrap();
    assert_eq!(
        html,
        "<html><head></head><body><div><span><span shtml:symdecl=\"http://x?a=y/archive&amp;m=foo&amp;l=en&amp;s=bar\">bar</span></span></div></body></html>"
    );
    // one module that holds one symbol named `bar`
    let decls = &bundle.found.declarations;
    assert_eq!(decls.len(), 2);
    assert_eq!((decls[0].depth, decls[0].range), (1, inner_range));
    match &decls[0].element {
        OpenSHTMLElement::Symdecl { uri: u, arity, .. } => {
            assert_eq!(u, &uri(UriKind::Symbol, "foo", "bar"));
            assert_eq!(u.item, b"bar".to_vec());
            assert!(arity.is_empty());
        }
        other => panic!("{other:?}"),
    }
    assert_eq!((decls[1].depth, decls[1].range), (0, outer_range));
    assert_eq!(
        decls[1].element,
        OpenSHTMLElement::Module { uri: uri(UriKind::Module, "foo", ""), meta: None, signature: None }
    );
    assert_eq!(bundle.found.find(&vec![b"foo".to_vec(), b"bar".to_vec()]), Some(0));
    assert_eq!(bundle.found.find(&vec![b"foo".to_vec()]), Some(1));
    assert_eq!(bundle.found.find(&vec![b"bar".to_vec()]), None);
    assert_eq!(bundle.found.find(&vec![b"foo".to_vec(), b"baz".to_vec()]), None);
    assert_eq!(bundle.found.find(&Vec::new()), None);
    assert_eq!(bundle.found.declarations(), decls);
    // the narrative holds the module
    assert_eq!(bundle.found.elements.len(), 1);
    assert_eq!(bundle.found.elements[0].element, decls[1].element);
    assert_eq!(bundle.found.elements[0].depth, 0);
    // no diagnostics, no resources, no style sheets
    assert!(bundle.found.notices.is_empty());
    assert!(bundle.found.resources.is_empty());
    assert!(bundle.css.is_empty());
    // the body spans the outer `div`
    assert_eq!(bundle.body, body_range);
    assert_eq!(&html[bundle.body.start..bundle.body.end], "<body><div><span><span shtml:symdecl=\"http://x?a=y/archive&amp;m=foo&amp;l=en&amp;s=bar\">bar</span></span></div></body>");
    assert!(bundle.body.start <= div_range.start && div_range.end <= bundle.body.end);
    assert_eq!(bundle.inner_offset, 6);
    assert_eq!(bundle.body.start + bundle.inner_offset, div_range.start);
    // the facts
    let facts: Vec<(String, Predicate, String)> = bundle
        .found
        .triples
        .iter()
        .map(|t| (String::from_utf8(t.subject.clone()).unwrap(), t.predicate, String::from_utf8(t.object.clone()).unwrap()))
        .collect();
    let doc = "http://x?a=y/archive&d=doc&l=en".to_string();
    assert_eq!(
        facts,
        vec![
            (doc.clone(), Predicate::Language, "en".to_string()),
            (doc.clone(), Predicate::IsDocument, String::new()),
            ("http://x?a=y/archive".to_string(), Predicate::Contains, doc.clone()),
            (MODULE_TEXT.to_string(), Predicate::Declares, SYMBOL_TEXT.to_string()),
            (doc, Predicate::Contains, MODULE_TEXT.to_string()),
        ]
    );
}

#[test]
fn a_style_sheet_link_in_the_head_is_hoisted() {
    let mut p = parser();
    let html = el(&mut p, 0, "html", &[]);
    let head = el(&mut p, html, "head", &[]);
    let link = el(&mut p, head, "link", &[("rel", "stylesheet"), ("href", "a.css")]);
    assert_ranges(p.tree());
    p.pop(link);
    assert_eq!(p.css(), &vec![CSS::Link(b"a.css".to_vec())]);
    assert_eq!(p.tree().parent(link), None);
    assert_eq!(p.tree().serialize(), b"<html><head></head></html>".to_vec());
    assert_eq!(p.tree().end(head), "<html><head></head>".len());
    assert_eq!(p.tree().end(html), "<html><head></head></html>".len());
    assert_ranges(p.tree());
    let bundle = p.finish().unwrap();
    assert_eq!(bundle.css, vec![CSS::Link(b"a.css".to_vec())]);
    assert_eq!(bundle.html, b"<html><head></head></html>".to_vec());
}

#[test]
fn inline_styles_in_the_head_are_hoisted_with_their_text() {
    let mut p = parser();
    let html = el(&mut p, 0, "html", &[]);
    let head = el(&mut p, html, "head", &[]);
    let style = el(&mut p, head, "style", &[]);
    txt(&mut p, style, "p > a { }");
    let meta = el(&mut p, head, "meta", &[("charset", "utf-8")]);
    let other = el(&mut p, head, "link", &[("rel", "icon"), ("href", "i.png")]);
    let body = {
        p.pop(head);
        el(&mut p, html, "body", &[])
    };
    let kept = el(&mut p, body, "link", &[("rel", "stylesheet"), ("href", "b.css")]);
    p.pop(kept);
    assert_eq!(p.css(), &vec![CSS::Inline(b"p > a { }".to_vec())]);
    assert!(p.tree().parent(meta).is_some() && p.tree().parent(other).is_some());
    assert_eq!(p.tree().parent(style), None);
    assert_eq!(p.tree().parent(kept), Some(body));
    assert_ranges(p.tree());
    let bundle = p.finish().unwrap();
    assert_eq!(
        String::from_utf8(bundle.html).unwrap(),
        "<html><head><meta charset=\"utf-8\"><link rel=\"icon\" href=\"i.png\"></head><body><link rel=\"stylesheet\" href=\"b.css\"></body></html>"
    );
}

#[test]
fn an_argument_without_a_term_is_not_in_content() {
    let mut p = parser();
    let (_, body) = skeleton(&mut p);
    let span = el(&mut p, body, "span", &[("shtml:arg", "1")]);
    txt(&mut p, span, "x");
    assert_eq!(p.pending(span).elems, vec![OpenSHTMLElement::Arg(OpenArg { index: 1, position: None, mode: ArgMode::Normal })]);
    p.pop(span);
    assert!(p.pending(span).is_empty());
    assert_eq!(p.state().diagnostics().len(), 1);
    assert_eq!(p.state().diagnostics()[0].message, b"content element outside of a module".to_vec());
    assert_eq!(p.state().diagnostics()[0].range, range(p.tree(), span));
    let failure = p.finish().unwrap_err();
    assert_eq!(failure.log, b"content element outside of a module\n".to_vec());
}

#[test]
fn the_elements_of_a_node_close_before_those_of_its_ancestors() {
    let mut p = parser();
    let (_, body) = skeleton(&mut p);
    let section = el(&mut p, body, "div", &[("shtml:section", "2"), ("shtml:id", "s")]);
    let paragraph = el(&mut p, section, "div", &[("shtml:paragraph", ""), ("shtml:id", "p")]);
    let title = el(&mut p, paragraph, "span", &[("shtml:title", "")]);
    txt(&mut p, title, "T");
    assert_eq!(p.state().narrative_depth(), 3);
    // closing the section closes what is open inside it, innermost first
    p.pop(section);
    assert_eq!(p.state().narrative_depth(), 1);
    assert!(!p.tree().is_open(title) && !p.tree().is_open(paragraph) && !p.tree().is_open(section));
    assert!(p.tree().is_open(body));
    let records = p.state().elements();
    assert_eq!(records.len(), 2);
    assert!(matches!(records[0].element, OpenSHTMLElement::Paragraph { .. }));
    assert_eq!(records[0].depth, 1);
    assert_eq!(records[0].title, Some(range(p.tree(), title)));
    assert_eq!(records[0].range, range(p.tree(), paragraph));
    match &records[1].element {
        OpenSHTMLElement::Section { uri: u, .. } => assert_eq!(u.item, b"s".to_vec()),
        other => panic!("{other:?}"),
    }
    match &records[0].element {
        OpenSHTMLElement::Paragraph { uri: u, .. } => assert_eq!(u.item, b"s/p".to_vec()),
        other => panic!("{other:?}"),
    }
    assert_eq!(records[1].depth, 0);
    assert_eq!(records[1].title, None);
    assert!(p.finish().is_ok());
}

#[test]
fn an_application_collects_its_arguments() {
    let mut p = parser();
    let (_, body) = skeleton(&mut p);
    let plus = "http://x?a=y/archive&m=foo&s=plus";
    let app = el(&mut p, body, "mrow", &[("shtml:term", "OMA"), ("shtml:head", plus)]);
    let first = el(&mut p, app, "mi", &[("shtml:arg", "1"), ("shtml:term", "OMV"), ("shtml:head", "x")]);
    txt(&mut p, first, "x");
    let second = el(&mut p, app, "mi", &[("shtml:arg", "2")]);
    txt(&mut p, second, "y");
    let third = el(&mut p, app, "mi", &[("shtml:arg", "3")]);
    let wrapper = el(&mut p, third, "mrow", &[]);
    let deep = el(&mut p, wrapper, "mi", &[("shtml:term", "OMID"), ("shtml:head", plus)]);
    p.pop(deep);
    // the finished term waits on the wrapper for an element that takes it
    assert!(matches!(p.pending(wrapper).elems[..], [OpenSHTMLElement::ClosedTerm(_)]));
    p.pop(wrapper);
    assert_eq!(p.pending(third).len(), 2);
    p.pop(app);
    assert!(p.pending(third).is_empty() && p.pending(app).is_empty() && p.pending(body).is_empty());
    assert!(!p.state().in_term());
    let second_range = range(p.tree(), second);
    let app_range = range(p.tree(), app);
    let bundle = p.finish().unwrap();
    let sym = uri(UriKind::Symbol, "foo", "plus");
    let arg = |index| TermNode::Argument(OpenArg { index, position: None, mode: ArgMode::Normal });
    assert_eq!(bundle.found.resources.len(), 1);
    match &bundle.found.resources[0] {
        Resource::Term(t) => assert_eq!(
            t.nodes,
            vec![
                TermNode::Application { args: 3 },
                TermNode::Symbol(sym.clone()),
                arg(1),
                TermNode::Name(b"x".to_vec()),
                arg(2),
                TermNode::Raw(second_range),
                arg(3),
                TermNode::Symbol(sym.clone()),
            ]
        ),
        other => panic!("{other:?}"),
    }
    assert_eq!(bundle.found.elements.len(), 1);
    let record = &bundle.found.elements[0];
    assert_eq!((record.first, record.second, record.range), (Some(0), None, app_range));
    assert!(matches!(record.element, OpenSHTMLElement::OpenTerm { term: OpenTerm::OMA { .. }, is_top: true }));
    // the head was rewritten to the identifier in full
    assert!(String::from_utf8(bundle.html).unwrap().contains(
        "<mrow shtml:term=\"OMA\" shtml:head=\"http://x?a=y/archive&amp;m=foo&amp;l=en&amp;s=plus\">"
    ));
}

#[test]
fn one_malformed_declaration_fails_the_whole_document() {
    let mut p = parser();
    let (_, body) = skeleton(&mut p);
    let module = el(&mut p, body, "div", &[("shtml:module", MODULE)]);
    let good = el(&mut p, module, "span", &[("shtml:symdecl", SYMBOL)]);
    p.pop(good);
    let bad = el(&mut p, module, "span", &[("shtml:symdecl", "")]);
    p.pop(bad);
    p.pop(module);
    assert_eq!(p.state().declarations().len(), 2);
    let failure = p.finish().unwrap_err();
    assert_eq!(failure.log, b"invalid key  for shtml tag symdecl\n".to_vec());
}

#[test]
fn errors_of_the_markup_parser_do_not_stop_the_extraction_but_fail_it() {
    let mut p = parser();
    let (_, body) = skeleton(&mut p);
    p.parse_error(b"Unexpected token");
    let div = el(&mut p, body, "div", &[]);
    txt(&mut p, div, "x");
    assert_eq!(p.tree().serialize(), b"<html><head></head><body><div>x</div></body></html>".to_vec());
    assert_eq!(p.finish().unwrap_err().log, b"Unexpected token\n".to_vec());
}

#[test]
fn appending_closes_what_is_open_inside_the_parent() {
    let mut p = parser();
    let (html, body) = skeleton(&mut p);
    let a = el(&mut p, body, "a", &[]);
    let b = el(&mut p, a, "b", &[]);
    let c = el(&mut p, body, "c", &[]);
    assert!(!p.tree().is_open(a) && !p.tree().is_open(b) && p.tree().is_open(c));
    // a closed node takes no children, and the refusal changes nothing
    let before = p.tree().serialize();
    assert_eq!(p.append(a, NodeOrText::text(b"x".to_vec())), Err(TreeError::NotInnermost));
    assert_eq!(p.append(77, NodeOrText::text(b"x".to_vec())), Err(TreeError::NotInnermost));
    assert!(p.tree().is_open(c));
    assert_eq!(p.tree().serialize(), before);
    let br = el(&mut p, c, "br", &[]);
    assert_eq!(p.append(br, NodeOrText::comment(b"x".to_vec())), Err(TreeError::NotAContainer));
    // a comment behind the body lands in the root element
    p.append(html, NodeOrText::comment(b" end ".to_vec())).unwrap();
    assert!(!p.tree().is_open(body));
    assert_eq!(p.body().0, range(p.tree(), body));
    assert_ranges(p.tree());
    let bundle = p.finish().unwrap();
    assert_eq!(
        String::from_utf8(bundle.html).unwrap(),
        "<html><head></head><body><a><b></b></a><c><br></c></body><!-- end --></html>"
    );
}

#[test]
fn popping_what_is_not_an_open_element_changes_nothing() {
    let mut p = parser();
    let (_, body) = skeleton(&mut p);
    let t = txt(&mut p, body, "x");
    p.pop(t);
    p.pop(0);
    p.pop(99);
    assert!(p.tree().is_open(body));
    p.pop(body);
    p.pop(body);
    assert!(!p.tree().is_open(body));
}

#[test]
fn directly_under_the_document_no_rule_runs() {
    let mut p = parser();
    let root = el(&mut p, 0, "html", &[("shtml:symdecl", "")]);
    assert!(p.pending(root).is_empty());
    assert!(!p.state().has_diagnostics());
    p.append(0, NodeOrText::doctype(b"html".to_vec(), Vec::new(), Vec::new())).unwrap();
    p.append(0, NodeOrText::instruction(b"x".to_vec(), b"y".to_vec())).unwrap();
    assert_eq!(p.get_document(), 0);
    assert_eq!(
        String::from_utf8(p.finish().unwrap().html).unwrap(),
        "<html shtml:symdecl=\"\"></html><!DOCTYPE html><?x y>"
    );
}

#[test]
fn the_title_of_the_document_is_the_markup_inside_its_marker() {
    let mut p = parser();
    let html = el(&mut p, 0, "html", &[]);
    let body = el(&mut p, html, "body", &[("class", "x")]);
    let title = el(&mut p, body, "span", &[("shtml:doctitle", "")]);
    txt(&mut p, title, "My ");
    let b = el(&mut p, title, "b", &[]);
    txt(&mut p, b, "doc & more");
    let bundle = p.finish().unwrap();
    assert_eq!(bundle.found.title, Some(b"My <b>doc &amp; more</b>".to_vec()));
    assert_eq!(bundle.inner_offset, "<body class=\"x\">".len());
}

#[test]
fn imports_are_rewritten_and_recorded_in_their_module() {
    let mut p = parser();
    let (_, body) = skeleton(&mut p);
    let module = el(&mut p, body, "div", &[("shtml:module", MODULE)]);
    let import = el(&mut p, module, "span", &[("shtml:import", "http://x?a=y/archive&d=other"), ("class", "i")]);
    p.pop(import);
    let stray = el(&mut p, body, "span", &[("shtml:import", MODULE)]);
    p.pop(stray);
    assert_eq!(p.state().declarations().len(), 2);
    assert_eq!(
        p.state().declarations()[0].element,
        OpenSHTMLElement::ImportModule(uri(UriKind::Module, "other", ""))
    );
    assert_eq!(p.state().diagnostics().len(), 1);
    assert_eq!(p.state().diagnostics()[0].message, b"content element outside of a module".to_vec());
    assert!(String::from_utf8(p.tree().serialize()).unwrap().contains(
        "<span class=\"i\" shtml:import=\"http://x?a=y/archive&amp;m=other&amp;l=en\"></span>"
    ));
    assert!(p.finish().is_err());
}

fn events() -> Vec<Event> {
    let append = |parent, child| Event::Append { parent, child };
    vec![
        append(0, node("html", &[])),
        append(1, node("head", &[])),
        Event::Pop(2),
        append(1, node("body", &[])),
        append(3, node("div", &[("shtml:module", MODULE), ("shtml:language", "en")])),
        append(4, node("p", &[("shtml:definition", ""), ("shtml:fors", SYMBOL)])),
        append(5, node("span", &[("shtml:symdecl", SYMBOL)])),
        append(6, NodeOrText::text(b"bar".to_vec())),
        append(6, NodeOrText::text(b"!".to_vec())),
        Event::Pop(6),
        append(5, node("math", &[("shtml:term", "OMID"), ("shtml:head", SYMBOL)])),
        Event::Pop(5),
        Event::Pop(4),
        Event::Pop(3),
        Event::Pop(1),
    ]
}

#[test]
fn the_same_events_give_the_same_bundle() {
    let run = || HTMLParser::run(events(), uri(UriKind::Document, "doc", ""), ArchiveTable::new()).unwrap();
    let (one, two) = (run(), run());
    assert_eq!(one.found.elements, two.found.elements);
    assert_eq!(one.found.declarations, two.found.declarations);
    assert_eq!(one, two);
    let mut a: Vec<_> = one.found.triples.iter().map(|t| (t.subject.clone(), t.object.clone())).collect();
    let mut b: Vec<_> = two.found.triples.iter().map(|t| (t.subject.clone(), t.object.clone())).collect();
    a.sort();
    b.sort();
    assert_eq!(a, b);
    assert_eq!(
        String::from_utf8(one.html).unwrap(),
        "<html><head></head><body><div><p shtml:definition=\"\" shtml:fors=\"http://x?a=y/archive&amp;d=foo&amp;l=en&amp;s=bar\"><span shtml:symdecl=\"http://x?a=y/archive&amp;m=foo&amp;l=en&amp;s=bar\">bar!</span><math shtml:term=\"OMID\" shtml:head=\"http://x?a=y/archive&amp;m=foo&amp;l=en&amp;s=bar\"></math></p></div></body></html>"
    );
    assert_eq!(one.found.elements.len(), 3);
    assert!(matches!(one.found.elements[0].element, OpenSHTMLElement::OpenTerm { .. }));
    match &one.found.elements[1].element {
        OpenSHTMLElement::Paragraph { fors, .. } => assert_eq!(fors, &vec![uri(UriKind::Symbol, "foo", "bar")]),
        other => panic!("{other:?}"),
    }
    assert!(matches!(one.found.elements[2].element, OpenSHTMLElement::Module { .. }));
    assert_eq!(one.found.elements.iter().map(|r| r.depth).collect::<Vec<_>>(), vec![2, 1, 0]);
}

#[test]
fn a_run_stops_at_the_first_event_that_the_tree_refuses() {
    let mut evs = events();
    evs.insert(3, Event::Append { parent: 2, child: NodeOrText::text(b"late".to_vec()) });
    let failure = HTMLParser::run(evs, uri(UriKind::Document, "doc", ""), ArchiveTable::new()).unwrap_err();
    assert_eq!(failure.log, b"A node was appended to a node that is not open".to_vec());
    let evs = vec![Event::ParseError(b"bad".to_vec()), Event::Pop(0)];
    let failure = HTMLParser::run(evs, uri(UriKind::Document, "doc", ""), ArchiveTable::new()).unwrap_err();
    assert_eq!(failure.log, b"bad\n".to_vec());
    let mut p = parser();
    assert_eq!(p.replay(events()), None);
    assert_eq!(p.handle(Event::Append { parent: 2, child: NodeOrText::text(Vec::new()) }), Some(TreeError::NotInnermost));
    assert_eq!(p.handle(Event::Pop(1)), None);
    assert!(p.finish().is_ok());
}

#[test]
fn a_variable_is_a_scope_of_its_own_and_takes_its_type() {
    let mut p = parser();
    let (_, body) = skeleton(&mut p);
    let var = el(&mut p, body, "span", &[("shtml:vardef", "x"), ("shtml:args", "2")]);
    assert_eq!(p.state().narrative_depth(), 2);
    let tp = el(&mut p, var, "span", &[("shtml:type", "")]);
    let inner = el(&mut p, tp, "mi", &[("shtml:term", "OMV"), ("shtml:head", "y")]);
    txt(&mut p, inner, "y");
    let note = el(&mut p, var, "span", &[("shtml:definiendum", SYMBOL)]);
    p.pop(note);
    p.pop(var);
    assert_eq!((p.state().narrative_depth(), p.state().frame_depth()), (1, 0));
    assert!(!p.state().in_term());
    let var_range = range(p.tree(), var);
    let bundle = p.finish().unwrap();
    assert_eq!(bundle.found.resources, vec![Resource::Term(shtml_extraction::terms::Term { nodes: vec![TermNode::Name(b"y".to_vec())] })]);
    assert_eq!(bundle.found.elements.len(), 2);
    assert!(matches!(bundle.found.elements[0].element, OpenSHTMLElement::Definiendum(_)));
    assert_eq!(bundle.found.elements[0].depth, 1);
    let record = &bundle.found.elements[1];
    assert_eq!((record.depth, record.first, record.second, record.range), (0, Some(0), None, var_range));
    match &record.element {
        OpenSHTMLElement::Vardecl { uri: u, arity, is_seq, .. } => {
            assert_eq!(u, &uri(UriKind::Element, "doc", "x"));
            assert_eq!(arity.len(), 2);
            assert!(!is_seq);
        }
        other => panic!("{other:?}"),
    }
    assert!(bundle.found.declarations.is_empty());
}

#[test]
fn a_body_that_left_the_tree_fails_the_document() {
    let mut p = parser();
    let html = el(&mut p, 0, "html", &[]);
    let head = el(&mut p, html, "head", &[]);
    let style = el(&mut p, head, "style", &[]);
    let body = el(&mut p, style, "body", &[]);
    txt(&mut p, body, "some text that makes the body long");
    p.pop(head);
    assert_eq!(p.css().len(), 1);
    assert!(!p.tree().in_document(body));
    assert_eq!(p.finish().unwrap_err().log, b"The range of the body is not the body".to_vec());
}
