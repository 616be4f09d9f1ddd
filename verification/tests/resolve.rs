use shtml_extraction::resolve::{
    get_doc_uri, get_mod_uri, get_sym_uri, get_sym_uri_as_mod, parse_full, resolve_document,
    resolve_element, resolve_module, resolve_symbol, resolve_symbol_as_module, split_archive,
    written_in_full, ArchiveTable,
};
use shtml_extraction::uris::{Language, Uri, UriKind};

fn table() -> ArchiveTable {
    let mut t = ArchiveTable::new();
    t.add(b"http://mathhub.info".to_vec(), b"sTeX/Algebra".to_vec());
    t.add(b"http://example.org/".to_vec(), b"lib".to_vec());
    t
}

fn uri(kind: UriKind, base: &str, archive: &str, path: &str, name: &str, language: Language, item: &str) -> Uri {
    Uri {
        kind,
        base: base.as_bytes().to_vec(),
        archive: archive.as_bytes().to_vec(),
        path: path.as_bytes().to_vec(),
        name: name.as_bytes().to_vec(),
        language,
        item: item.as_bytes().to_vec(),
    }
}

fn text(u: &Uri) -> String {
    String::from_utf8(u.to_bytes()).unwrap()
}

#[test]
fn archives_by_name_under_the_hub() {
    let (a, l) = split_archive(&table(), b"http://mathhub.info/sTeX/Algebra/mod").unwrap();
    assert_eq!(a.id, b"sTeX/Algebra".to_vec());
    assert_eq!(a.base, b"http://mathhub.info".to_vec());
    assert_eq!(l, 33);
    let (_, l) = split_archive(&table(), b"http://mathhub.info/sTeX/Algebra").unwrap();
    assert_eq!(l, 32);
    assert!(split_archive(&table(), b"http://mathhub.info/other").is_none());
}

#[test]
fn archives_by_base_elsewhere() {
    let (a, l) = split_archive(&table(), b"http://example.org/lib/sub").unwrap();
    assert_eq!(a.id, b"lib".to_vec());
    assert_eq!(l, 22);
    assert!(split_archive(&table(), b"http://example.org/other").is_none());
    assert!(split_archive(&table(), b"http://nowhere").is_none());
}

#[test]
fn archives_under_fixed_addresses() {
    let empty = ArchiveTable::new();
    let (a, l) = split_archive(&empty, b"http://mathhub.info/sTeX/meta/x").unwrap();
    assert_eq!((a.base, a.id, l), (b"http://mathhub.info/:sTeX".to_vec(), b"sTeX/meta-inf".to_vec(), 29));
    let (a, l) = split_archive(&empty, b"http://cds.omdoc.org/urtheories").unwrap();
    assert_eq!((a.base, a.id, l), (b"http://cds.omdoc.org".to_vec(), b"MMT/urtheories".to_vec(), 31));
    let (a, l) = split_archive(&empty, b"http://mathhub.info/my/archive").unwrap();
    assert_eq!((a.base, a.id, l), (b"http://mathhub.info".to_vec(), b"my/archive".to_vec(), 30));
    let (a, l) = split_archive(&empty, b"http://kwarc.info/Papers/stex-mmt/paper").unwrap();
    assert_eq!(a.id, b"Papers/22-CICM-Injecting-Formal-Mathematics".to_vec());
    assert_eq!(l, 34);
    let (a, l) = split_archive(&empty, b"http://kwarc.info/Papers/tug/paper").unwrap();
    assert_eq!(a.id, b"Papers/22-TUG-sTeX".to_vec());
    assert_eq!(l, 34);
    assert!(split_archive(&empty, b"http://cds.omdoc.org/urtheories/x").is_none());
}

#[test]
fn modules_in_path_form() {
    let m = get_mod_uri(&table(), b"http://mathhub.info/sTeX/Algebra/mod?Group", Language::English).unwrap();
    assert_eq!(
        m,
        uri(UriKind::Module, "http://mathhub.info", "sTeX/Algebra", "mod", "Group", Language::English, "")
    );
    assert_eq!(text(&m), "http://mathhub.info?a=sTeX/Algebra&p=mod&m=Group&l=en");
    let m = get_mod_uri(&table(), b"http://example.org/lib/?Mod-module", Language::German).unwrap();
    assert_eq!(m, uri(UriKind::Module, "http://example.org/", "lib", "", "Mod", Language::German, ""));
    assert_eq!(text(&m), "http://example.org/?a=lib&m=Mod&l=de");
    let m = get_mod_uri(&ArchiveTable::new(), b"http://kwarc.info/Papers/stex-mmt/paper?M", Language::English)
        .unwrap();
    assert_eq!(m.path, b"paper".to_vec());
    assert!(get_mod_uri(&table(), b"http://mathhub.info/sTeX/Algebra/mod", Language::English).is_none());
    assert!(get_mod_uri(&table(), b"http://nowhere/x?M", Language::English).is_none());
}

#[test]
fn symbols_in_path_form() {
    let s = get_sym_uri(&table(), b"http://mathhub.info/sTeX/Algebra/mod?Group?unit", Language::English)
        .unwrap();
    assert_eq!(
        s,
        uri(UriKind::Symbol, "http://mathhub.info", "sTeX/Algebra", "mod", "Group", Language::English, "unit")
    );
    assert_eq!(text(&s), "http://mathhub.info?a=sTeX/Algebra&p=mod&m=Group&l=en&s=unit");
    let s = get_sym_uri(
        &table(),
        b"http://example.org/lib?A?x[http://example.org/lib?B]c",
        Language::English,
    )
    .unwrap();
    assert_eq!(s, uri(UriKind::Symbol, "http://example.org/", "lib", "", "A", Language::English, "B/c"));
    assert!(get_sym_uri(&table(), b"http://example.org/lib?A?x[http://example.org/lib?B", Language::English)
        .is_none());
    assert!(get_sym_uri(&table(), b"no question mark", Language::English).is_none());
    let m = get_sym_uri_as_mod(&table(), b"http://mathhub.info/sTeX/Algebra/mod?Group?unit", Language::English)
        .unwrap();
    assert_eq!(
        m,
        uri(UriKind::Module, "http://mathhub.info", "sTeX/Algebra", "mod", "Group/unit", Language::English, "")
    );
}

#[test]
fn documents_in_path_form() {
    let d = get_doc_uri(&table(), b"http://example.org/lib/sub/doc.de.tex").unwrap();
    assert_eq!(d, uri(UriKind::Document, "http://example.org/", "lib", "sub", "doc", Language::German, ""));
    assert_eq!(text(&d), "http://example.org/?a=lib&p=sub&d=doc&l=de");
    let d = get_doc_uri(&table(), b"http://example.org/lib/doc").unwrap();
    assert_eq!(d, uri(UriKind::Document, "http://example.org/", "lib", "", "doc", Language::English, ""));
    assert!(get_doc_uri(&table(), b"doc.tex").is_none());
}

#[test]
fn references_written_in_full() {
    assert!(written_in_full(b"http://x?a=y/archive&d=foo"));
    assert!(!written_in_full(b"http://x?Mod?sym"));
    assert!(!written_in_full(b"http://x"));
    let s = parse_full(b"http://x?a=y/archive&d=foo&l=en&s=bar", UriKind::Symbol, Language::German).unwrap();
    assert_eq!(s, uri(UriKind::Symbol, "http://x", "y/archive", "", "foo", Language::English, "bar"));
    let m = resolve_module(&table(), b"http://x?a=y/archive&p=a/b&m=foo", Language::German).unwrap();
    assert_eq!(m, uri(UriKind::Module, "http://x", "y/archive", "a/b", "foo", Language::German, ""));
    assert!(resolve_module(&table(), b"http://x?a=y/archive&d=foo&s=bar", Language::English).is_none());
    assert!(resolve_symbol(&table(), b"http://x?a=y/archive&d=foo", Language::English).is_none());
    assert!(resolve_symbol(&table(), b"http://x?a=y/archive&s=bar", Language::English).is_none());
    assert!(resolve_symbol(&table(), b"http://x?a=y&d=foo&s=bar&z=1", Language::English).is_none());
    assert!(resolve_symbol(&table(), b"http://x?a=y&d=foo&s=bar&l=xx", Language::English).is_none());
    assert!(resolve_symbol(&table(), b"http://x?a=y&d=foo&s=bar&", Language::English).is_none());
    let e = resolve_element(b"http://x?a=y&d=doc&e=sec/par", Language::English).unwrap();
    assert_eq!(e.kind, UriKind::Element);
    assert_eq!(e.item, b"sec/par".to_vec());
    assert!(resolve_element(b"http://x/doc?sec", Language::English).is_none());
    let d = resolve_document(&table(), b"http://x?a=y&d=doc", Language::French).unwrap();
    assert_eq!(d, uri(UriKind::Document, "http://x", "y", "", "doc", Language::French, ""));
    let m = resolve_symbol_as_module(&table(), b"http://x?a=y&m=M&s=S", Language::English).unwrap();
    assert_eq!(m, uri(UriKind::Module, "http://x", "y", "", "M/S", Language::English, ""));
}

#[test]
fn both_forms_resolve_through_one_door() {
    let t = table();
    let path = resolve_symbol(&t, b"http://mathhub.info/sTeX/Algebra/mod?Group?unit", Language::English).unwrap();
    let full = resolve_symbol(&t, text(&path).as_bytes(), Language::German).unwrap();
    assert_eq!(path, full);
    let doc = resolve_document(&t, b"http://example.org/lib/sub/doc.de.tex", Language::English).unwrap();
    assert_eq!(resolve_document(&t, text(&doc).as_bytes(), Language::English).unwrap(), doc);
}

#[test]
fn identifiers_and_their_parts() {
    let m = uri(UriKind::Module, "http://x", "a", "", "Outer/Inner", Language::English, "");
    let s = m.into_symbol().unwrap();
    assert_eq!(s, uri(UriKind::Symbol, "http://x", "a", "", "Outer", Language::English, "Inner"));
    assert_eq!(s.into_module(), m);
    assert!(uri(UriKind::Module, "http://x", "a", "", "Flat", Language::English, "").into_symbol().is_none());
    assert_eq!(m.last_name(), b"Inner".to_vec());
    assert_eq!(m.nested(b"Deep").name, b"Outer/Inner/Deep".to_vec());
    assert!(m.same(&m.copy()));
    assert!(!m.same(&s));
    let e = m.with_item(UriKind::Symbol, b"c");
    assert_eq!(text(&e), "http://x?a=a&m=Outer/Inner&l=en&s=c");
    let d = uri(UriKind::Element, "http://x", "a", "p", "doc", Language::French, "sec");
    assert_eq!(text(&d), "http://x?a=a&p=p&d=doc&l=fr&e=sec");
}

#[test]
fn languages() {
    assert_eq!(Language::from_code(b"de"), Some(Language::German));
    assert_eq!(Language::from_code(b"xx"), None);
    assert_eq!(Language::Slovenian.code(), "sl");
    assert_eq!(Language::from_rel_path(b"doc.de.tex"), Language::German);
    assert_eq!(Language::from_rel_path(b"doc.fr"), Language::French);
    assert_eq!(Language::from_rel_path(b"doc.tex"), Language::English);
    assert_eq!(Language::from_rel_path(b"doc"), Language::English);
    for l in [
        Language::English, Language::German, Language::French, Language::Romanian, Language::Arabic,
        Language::Bulgarian, Language::Russian, Language::Finnish, Language::Turkish, Language::Slovenian,
    ] {
        assert_eq!(Language::from_code(l.code().as_bytes()), Some(l));
    }
}
