use std::borrow::Cow;
use std::cell::RefCell;
use std::rc::Rc;

use html5ever::interface::{ElementFlags, NodeOrText, QuirksMode, TreeSink};
use html5ever::serialize::{Serialize, SerializeOpts, Serializer, TraversalScope};
use html5ever::tendril::{StrTendril, TendrilSink};
use html5ever::{parse_document, Attribute, ExpandedName, LocalName, Namespace, ParseOpts, QualName};
use shtml_extraction::tree::{NodeData, Tree};
use shtml_extraction::attributes::Attribute as PlainAttribute;
use shtml_extraction::content::ModuleTrait;
use shtml_extraction::open::OpenSHTMLElement;
use shtml_extraction::parser::{create_element, Bundle, Failure, HTMLParser, NewElement, NodeOrText as Child, CSS};
use shtml_extraction::resolve::ArchiveTable;
use shtml_extraction::uris::{Language, Uri, UriKind};

enum Slot {
    Element(NewElement),
    Comment(Vec<u8>),
    Instruction(Vec<u8>, Vec<u8>),
    Node(usize),
    Taken,
}

struct Handle {
    slot: RefCell<Slot>,
    name: Option<QualName>,
}

struct Sink {
    parser: RefCell<HTMLParser>,
    document: Rc<Handle>,
}

fn node_of(handle: &Rc<Handle>) -> Option<usize> {
    match &*handle.slot.borrow() {
        Slot::Node(id) => Some(*id),
        _ => None,
    }
}

impl TreeSink for Sink {
    type Handle = Rc<Handle>;
    type Output = Result<Bundle, Failure>;
    type ElemName<'a> = ExpandedName<'a>;

    fn finish(self) -> Self::Output {
        let parser = self.parser.into_inner();
        // what the serializer of the markup parser makes of the tree
        let mut expected = Vec::new();
        let root = Markup { tree: parser.tree(), id: 0 };
        html5ever::serialize(&mut expected, &root, SerializeOpts::default()).unwrap();
        assert_eq!(
            String::from_utf8_lossy(&parser.tree().serialize()),
            String::from_utf8_lossy(&expected)
        );
        for id in 0..parser.tree().len() {
            if parser.tree().in_document(id) {
                let (s, e) = (parser.tree().start(id), parser.tree().end(id));
                assert_eq!(&expected[s..e], &parser.tree().serialize_node(id)[..]);
            }
        }
        let result = parser.finish();
        if let Ok(bundle) = &result {
            assert_eq!(bundle.html, expected);
        }
        result
    }

    fn parse_error(&self, msg: Cow<'static, str>) {
        self.parser.borrow_mut().parse_error(msg.as_bytes());
    }

    fn get_document(&self) -> Self::Handle {
        self.document.clone()
    }

    fn set_quirks_mode(&self, _mode: QuirksMode) {}

    fn same_node(&self, x: &Self::Handle, y: &Self::Handle) -> bool {
        Rc::ptr_eq(x, y)
    }

    fn elem_name<'a>(&'a self, target: &'a Self::Handle) -> Self::ElemName<'a> {
        match &target.name {
            Some(name) => name.expanded(),
            None => unreachable!(),
        }
    }

    fn create_element(&self, name: QualName, attrs: Vec<Attribute>, _: ElementFlags) -> Self::Handle {
        let plain = attrs
            .iter()
            .map(|a| PlainAttribute { name: a.name.local.as_bytes().to_vec(), value: a.value.as_bytes().to_vec() })
            .collect();
        let html = &*name.ns == "http://www.w3.org/1999/xhtml";
        let element = create_element(name.local.as_bytes().to_vec(), html, plain);
        Rc::new(Handle { slot: RefCell::new(Slot::Element(element)), name: Some(name) })
    }

    fn create_comment(&self, text: StrTendril) -> Self::Handle {
        Rc::new(Handle { slot: RefCell::new(Slot::Comment(text.as_bytes().to_vec())), name: None })
    }

    fn create_pi(&self, target: StrTendril, data: StrTendril) -> Self::Handle {
        Rc::new(Handle {
            slot: RefCell::new(Slot::Instruction(target.as_bytes().to_vec(), data.as_bytes().to_vec())),
            name: None,
        })
    }

    fn append(&self, parent: &Self::Handle, child: NodeOrText<Self::Handle>) {
        let parent = node_of(parent).unwrap();
        match child {
            NodeOrText::AppendText(text) => {
                self.parser.borrow_mut().append(parent, Child::text(text.as_bytes().to_vec())).unwrap();
            }
            NodeOrText::AppendNode(handle) => {
                let child = match handle.slot.replace(Slot::Taken) {
                    Slot::Element(e) => Child::node(e),
                    Slot::Comment(t) => Child::comment(t),
                    Slot::Instruction(t, d) => Child::instruction(t, d),
                    _ => panic!("a node was appended twice"),
                };
                let id = self.parser.borrow_mut().append(parent, child).unwrap();
                handle.slot.replace(Slot::Node(id));
            }
        }
    }

    fn append_doctype_to_document(&self, name: StrTendril, public_id: StrTendril, system_id: StrTendril) {
        let child = Child::doctype(
            name.as_bytes().to_vec(),
            public_id.as_bytes().to_vec(),
            system_id.as_bytes().to_vec(),
        );
        self.parser.borrow_mut().append(0, child).unwrap();
    }

    fn append_based_on_parent_node(&self, _: &Self::Handle, prev: &Self::Handle, child: NodeOrText<Self::Handle>) {
        self.append(prev, child);
    }

    fn pop(&self, node: &Self::Handle) {
        if let Some(id) = node_of(node) {
            self.parser.borrow_mut().pop(id);
        }
    }

    fn append_before_sibling(&self, _sibling: &Self::Handle, _child: NodeOrText<Self::Handle>) {
        unreachable!()
    }

    fn remove_from_parent(&self, _target: &Self::Handle) {
        unreachable!()
    }

    fn reparent_children(&self, _node: &Self::Handle, _new_parent: &Self::Handle) {
        unreachable!()
    }

    fn get_template_contents(&self, _target: &Self::Handle) -> Self::Handle {
        unreachable!()
    }

    fn add_attrs_if_missing(&self, _target: &Self::Handle, _attrs: Vec<Attribute>) {
        unreachable!()
    }
}

struct Markup<'a> {
    tree: &'a Tree,
    id: usize,
}

fn qual_name(name: &[u8], html: bool) -> QualName {
    let ns = if html { "http://www.w3.org/1999/xhtml" } else { "http://www.w3.org/2000/svg" };
    QualName::new(None, Namespace::from(ns), LocalName::from(std::str::from_utf8(name).unwrap()))
}

impl Serialize for Markup<'_> {
    fn serialize<S: Serializer>(&self, serializer: &mut S, scope: TraversalScope) -> std::io::Result<()> {
        let text = |b: &Vec<u8>| String::from_utf8(b.clone()).unwrap();
        let children = |serializer: &mut S| -> std::io::Result<()> {
            for c in self.tree.children(self.id) {
                Markup { tree: self.tree, id: *c }.serialize(serializer, TraversalScope::IncludeNode)?;
            }
            Ok(())
        };
        match self.tree.data(self.id) {
            NodeData::Document => children(serializer),
            NodeData::Doctype { name, .. } => serializer.write_doctype(&text(name)),
            NodeData::Text { text: t, .. } => serializer.write_text(&text(t)),
            NodeData::Comment { text: t } => serializer.write_comment(&text(t)),
            NodeData::Instruction { target, data } => {
                serializer.write_processing_instruction(&text(target), &text(data))
            }
            NodeData::Element { name, html, attrs, .. } => {
                let whole = matches!(scope, TraversalScope::IncludeNode);
                if whole {
                    let owned: Vec<(QualName, String)> = (0..attrs.len())
                        .map(|i| {
                            let local = LocalName::from(std::str::from_utf8(attrs.name_at(i)).unwrap());
                            (QualName::new(None, Namespace::from(""), local), text(attrs.value_at(i)))
                        })
                        .collect();
                    serializer.start_elem(qual_name(name, *html), owned.iter().map(|(n, v)| (n, v.as_str())))?;
                }
                children(serializer)?;
                if whole {
                    serializer.end_elem(qual_name(name, *html))?;
                }
                Ok(())
            }
        }
    }
}

fn extract(input: &str) -> Result<Bundle, Failure> {
    let uri = Uri {
        kind: UriKind::Document,
        base: b"http://x".to_vec(),
        archive: b"y/archive".to_vec(),
        path: Vec::new(),
        name: b"doc".to_vec(),
        language: Language::English,
        item: Vec::new(),
    };
    let sink = Sink {
        parser: RefCell::new(HTMLParser::new(uri, ArchiveTable::new())),
        document: Rc::new(Handle { slot: RefCell::new(Slot::Node(0)), name: None }),
    };
    parse_document(sink, ParseOpts::default()).one(StrTendril::from(input))
}

fn log(r: &Result<Bundle, Failure>) -> String {
    match r {
        Ok(_) => String::new(),
        Err(f) => String::from_utf8_lossy(&f.log).into_owned(),
    }
}

#[test]
fn a_parsed_document_with_a_module_and_a_symbol() {
    let input = "<!DOCTYPE html><div><span shtml:module=\"http://x?a=y/archive&d=foo\" shtml:language=\"en\"><span shtml:symdecl=\"http://x?a=y/archive&d=foo&l=en&s=bar\">bar</span></span></div>";
    let result = extract(input);
    assert!(result.is_ok(), "{}", log(&result));
    let bundle = result.unwrap();
    let html = String::from_utf8(bundle.html.clone()).unwrap();
    assert_eq!(
        html,
        "<!DOCTYPE html><html><head></head><body><div><span><span shtml:symdecl=\"http://x?a=y/archive&amp;m=foo&amp;l=en&amp;s=bar\">bar</span></span></div></body></html>"
    );
    assert_eq!(bundle.found.declarations.len(), 2);
    match &bundle.found.declarations[0].element {
        OpenSHTMLElement::Symdecl { uri, .. } => assert_eq!(uri.item, b"bar".to_vec()),
        other => panic!("{other:?}"),
    }
    assert!(matches!(bundle.found.declarations[1].element, OpenSHTMLElement::Module { .. }));
    assert_eq!(bundle.found.find(&vec![b"foo".to_vec(), b"bar".to_vec()]), Some(0));
    let body = &html[bundle.body.start..bundle.body.end];
    assert!(body.starts_with("<body><div>") && body.ends_with("</div></body>"));
    assert_eq!(bundle.inner_offset, 6);
    let symbol = bundle.found.declarations[0].range;
    assert_eq!(
        &html[symbol.start..symbol.end],
        "<span shtml:symdecl=\"http://x?a=y/archive&amp;m=foo&amp;l=en&amp;s=bar\">bar</span>"
    );
    let module = bundle.found.declarations[1].range;
    assert!(html[module.start..module.end].starts_with("<span><span shtml:symdecl"));
    assert!(html[module.start..module.end].ends_with("bar</span></span>"));
}

#[test]
fn a_parsed_document_without_a_document_type_fails_with_the_error_of_the_parser() {
    let result = extract("<div>x</div>");
    assert!(result.is_err());
    assert!(!log(&result).is_empty());
}

#[test]
fn a_parsed_head_loses_its_style_sheets() {
    let input = "<!DOCTYPE html><html><head><link rel=\"stylesheet\" href=\"a.css\"/><style>p &gt; a {}</style><title>T</title></head><body><p>x &amp; y</p></body></html>";
    let result = extract(input);
    assert!(result.is_ok(), "{}", log(&result));
    let bundle = result.unwrap();
    assert_eq!(bundle.css, vec![CSS::Link(b"a.css".to_vec()), CSS::Inline(b"p &gt; a {}".to_vec())]);
    let html = String::from_utf8(bundle.html).unwrap();
    assert_eq!(
        html,
        "<!DOCTYPE html><html><head><title>T</title></head><body><p>x &amp; y</p></body></html>"
    );
    assert_eq!(&html[bundle.body.start..bundle.body.end], "<body><p>x &amp; y</p></body>");
}

#[test]
fn a_parsed_bare_argument_fails_the_document() {
    let result = extract("<!DOCTYPE html><span shtml:arg=\"1\">x</span>");
    assert_eq!(log(&result), "content element outside of a module\n");
}

#[test]
fn the_markup_is_what_the_serializer_of_the_parser_writes() {
    let inputs = [
        "<!DOCTYPE html><html lang=\"en\"><head><meta charset=\"utf-8\"><script>if (a < b && c > d) {}</script><title>a &amp; b</title></head><body class=\"x &quot;y&quot; <z>\"><!-- note --><p>one<br>two&nbsp;three &lt;four&gt; &amp;</p><img src=\"i.png\" alt=\"a&amp;b\"><textarea>x &lt; y</textarea><noscript><b>n</b></noscript></body></html>",
        "<!DOCTYPE html><p>caf\u{e9} \u{a0}\u{a0} \u{2200}x</p><math><mrow><mi>x</mi><mo>&lt;</mo><mi>y</mi></mrow></math><svg><style>a &gt; b</style><circle r=\"1\"/></svg><ul><li>a<li>b</ul><input disabled><hr>",
        "<!DOCTYPE html><div><span shtml:section=\"1\" shtml:id=\"s\"><span shtml:title=\"\">T</span><span shtml:paragraph=\"\" shtml:inline=\"true\">text <b>bold</b></span></span></div>",
    ];
    for input in inputs {
        // the comparison is made when the parser finishes
        let result = extract(input);
        assert!(result.is_ok(), "{}", log(&result));
    }
}
