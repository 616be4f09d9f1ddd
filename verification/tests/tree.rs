use shtml_extraction::attributes::Attributes;
use shtml_extraction::tree::{NodeData, Tree, TreeError};

fn attrs(pairs: &[(&str, &str)]) -> Attributes {
    let mut a = Attributes::new();
    for (n, v) in pairs {
        assert!(a.insert(n.as_bytes().to_vec(), v.as_bytes().to_vec()));
    }
    a
}

fn element(tree: &mut Tree, parent: usize, name: &str, pairs: &[(&str, &str)]) -> usize {
    tree.append_element(parent, name.as_bytes().to_vec(), true, attrs(pairs)).unwrap()
}

/// Every element that hangs from the document must be cut out of the
/// serialized document by its range.
fn assert_ranges(tree: &Tree) {
    let html = tree.serialize();
    assert_eq!(tree.end(0), html.len());
    for id in 0..tree.len() {
        if tree.in_document(id) {
            let (s, e) = (tree.start(id), tree.end(id));
            assert!(s <= e && e <= html.len(), "node {id}");
            assert_eq!(&html[s..e], &tree.serialize_node(id)[..], "node {id}");
        }
    }
}

#[test]
fn an_empty_tree_serializes_to_nothing() {
    let tree = Tree::new();
    assert_eq!(tree.len(), 1);
    assert_eq!(tree.depth(), 1);
    assert_eq!(tree.top(), 0);
    assert_eq!(tree.serialize(), Vec::<u8>::new());
    assert!(matches!(tree.data(0), NodeData::Document));
}

#[test]
fn ranges_follow_the_markup_while_the_tree_grows() {
    let mut tree = Tree::new();
    let html = element(&mut tree, 0, "html", &[]);
    assert_eq!((tree.start(html), tree.end(html)), (0, 13));
    assert_ranges(&tree);
    let body = element(&mut tree, html, "body", &[("class", "a\"b")]);
    assert_eq!(tree.start(body), 6);
    assert_eq!(tree.end(body), 6 + "<body class=\"a&quot;b\"></body>".len());
    assert_ranges(&tree);
    let div = element(&mut tree, body, "div", &[]);
    let text = tree.append_text(div, b"1 < 2").unwrap();
    assert_eq!(tree.end(text) - tree.start(text), "1 &lt; 2".len());
    assert_ranges(&tree);
    assert_eq!(tree.close_top(), Some(div));
    let p = element(&mut tree, body, "p", &[]);
    tree.append_text(p, b"x").unwrap();
    assert_ranges(&tree);
    assert_eq!(
        String::from_utf8(tree.serialize()).unwrap(),
        "<html><body class=\"a&quot;b\"><div>1 &lt; 2</div><p>x</p></body></html>"
    );
    assert_eq!(tree.start(div), "<html><body class=\"a&quot;b\">".len());
    assert_eq!(tree.end(div), tree.start(p));
    assert_eq!(tree.parent(p), Some(body));
    assert_eq!(tree.children(body), &vec![div, p]);
    assert_eq!(tree.last_child(body), Some(p));
}

#[test]
fn text_that_follows_text_is_merged() {
    let mut tree = Tree::new();
    let div = element(&mut tree, 0, "div", &[]);
    let a = tree.append_text(div, b"a&").unwrap();
    let b = tree.append_text(div, b"b").unwrap();
    assert_eq!(a, b);
    assert_eq!(tree.len(), 3);
    assert_eq!(String::from_utf8(tree.serialize()).unwrap(), "<div>a&amp;b</div>");
    assert_eq!(tree.end(div), "<div>a&amp;b</div>".len());
    assert_ranges(&tree);
    match tree.data(a) {
        NodeData::Text { text, raw } => {
            assert_eq!(text, &b"a&b".to_vec());
            assert!(!raw);
        }
        _ => panic!("not a text node"),
    }
}

#[test]
fn merging_text_across_a_split_no_break_space() {
    let mut tree = Tree::new();
    let div = element(&mut tree, 0, "div", &[]);
    tree.append_text(div, &[b'a', 0xC2]).unwrap();
    tree.append_text(div, &[0xA0, b'b']).unwrap();
    assert_eq!(tree.serialize(), b"<div>a&nbsp;b</div>".to_vec());
    assert_ranges(&tree);
}

#[test]
fn raw_text_elements_keep_their_text() {
    let mut tree = Tree::new();
    let style = element(&mut tree, 0, "style", &[]);
    tree.append_text(style, b"a > b & c").unwrap();
    assert_eq!(String::from_utf8(tree.serialize()).unwrap(), "<style>a > b & c</style>");
    assert_eq!(tree.end(style), "<style>a > b & c</style>".len());
    assert_ranges(&tree);
    assert_eq!(tree.serialize_content(style), b"a > b & c".to_vec());
}

#[test]
fn void_elements_have_no_end_tag_and_take_no_children() {
    let mut tree = Tree::new();
    let p = element(&mut tree, 0, "p", &[]);
    let br = element(&mut tree, p, "br", &[]);
    assert_eq!(tree.end(br) - tree.start(br), "<br>".len());
    let before = tree.serialize();
    assert_eq!(tree.append_text(br, b"x"), Err(TreeError::NotAContainer));
    assert_eq!(
        tree.append_element(br, b"i".to_vec(), true, Attributes::new()),
        Err(TreeError::NotAContainer)
    );
    assert_eq!(tree.serialize(), before);
    assert_eq!(tree.close_top(), Some(br));
    tree.append_text(p, b"x").unwrap();
    assert_eq!(String::from_utf8(tree.serialize()).unwrap(), "<p><br>x</p>");
    assert_ranges(&tree);
}

#[test]
fn only_the_innermost_open_node_takes_children() {
    let mut tree = Tree::new();
    let a = element(&mut tree, 0, "a", &[]);
    let b = element(&mut tree, a, "b", &[]);
    assert_eq!(tree.append_text(a, b"x"), Err(TreeError::NotInnermost));
    assert_eq!(tree.append_comment(0, b"c".to_vec()), Err(TreeError::NotInnermost));
    assert_eq!(tree.close_top(), Some(b));
    assert!(!tree.is_open(b));
    assert!(tree.is_open(a));
    assert_eq!(tree.append_text(b, b"x"), Err(TreeError::NotInnermost));
    assert!(tree.append_text(a, b"x").is_ok());
    assert_eq!(tree.close_top(), Some(a));
    assert_eq!(tree.close_top(), None);
    assert_eq!(tree.remove_top(), None);
    assert_eq!(tree.depth(), 1);
}

#[test]
fn comments_doctypes_and_instructions() {
    let mut tree = Tree::new();
    tree.append_doctype(0, b"html".to_vec(), Vec::new(), Vec::new()).unwrap();
    let html = element(&mut tree, 0, "html", &[]);
    tree.append_comment(html, b" note ".to_vec()).unwrap();
    tree.append_instruction(html, b"php".to_vec(), b"echo".to_vec()).unwrap();
    assert_eq!(
        String::from_utf8(tree.serialize()).unwrap(),
        "<!DOCTYPE html><html><!-- note --><?php echo></html>"
    );
    assert_ranges(&tree);
}

#[test]
fn a_removed_element_gives_its_bytes_back() {
    let mut tree = Tree::new();
    let html = element(&mut tree, 0, "html", &[]);
    let head = element(&mut tree, html, "head", &[]);
    tree.append_text(head, b"\n").unwrap();
    let link = element(&mut tree, head, "link", &[("rel", "stylesheet"), ("href", "a.css")]);
    assert_ranges(&tree);
    let with_link = tree.end(html);
    assert_eq!(tree.remove_top(), Some(link));
    assert_eq!(tree.parent(link), None);
    assert!(!tree.is_open(link));
    assert!(!tree.in_document(link) && tree.in_document(head) && tree.in_document(0));
    assert!(!tree.in_document(99));
    assert_eq!(with_link - tree.end(html), "<link rel=\"stylesheet\" href=\"a.css\">".len());
    assert_eq!(String::from_utf8(tree.serialize()).unwrap(), "<html><head>\n</head></html>");
    assert_ranges(&tree);
    // text that follows is merged with the text before the removed element
    tree.append_text(head, b"x").unwrap();
    assert_eq!(tree.children(head).len(), 1);
    let style = element(&mut tree, head, "style", &[]);
    tree.append_text(style, b"p{}").unwrap();
    assert_eq!(tree.remove_top(), Some(style));
    assert_eq!(String::from_utf8(tree.serialize()).unwrap(), "<html><head>\nx</head></html>");
    assert_ranges(&tree);
    assert_eq!(tree.close_top(), Some(head));
    let body = element(&mut tree, html, "body", &[]);
    assert_eq!(tree.start(body), "<html><head>\nx</head>".len());
    assert_ranges(&tree);
}

#[test]
fn elements_outside_the_html_namespace_are_never_void_or_raw() {
    let mut tree = Tree::new();
    let svg = tree.append_element(0, b"svg".to_vec(), false, Attributes::new()).unwrap();
    let style = tree.append_element(svg, b"style".to_vec(), false, Attributes::new()).unwrap();
    tree.append_text(style, b"a>b").unwrap();
    tree.close_top();
    let link = tree.append_element(svg, b"link".to_vec(), false, Attributes::new()).unwrap();
    tree.append_text(link, b"t").unwrap();
    assert_eq!(
        String::from_utf8(tree.serialize()).unwrap(),
        "<svg><style>a&gt;b</style><link>t</link></svg>"
    );
    assert_ranges(&tree);
}
