//! Resolution of textual references to identifiers.
//!
//! A reference is either written out in full, as `base?a=archive&...`, or in
//! the older path form, `base/archive/path?module?symbol`, which is resolved
//! against the list of known archives.

use vstd::prelude::*;
use crate::text::{
    copy_bytes, eq_str, is_prefix, is_suffix, lit, pieces, rsplit_once, slice_bytes, split,
    opt_bytes, split_first, split_last, split_once, starts_with, starts_with_str, strip_suffix_str, views,
    without_suffix, ends_with,
};
use crate::uris::{language_of, rel_path_language, Language, Uri, UriKind, UriView};

verus! {

/// An archive: the base of its identifiers and its name.
#[derive(Clone, Debug, PartialEq, Eq)]
pub struct Archive {
    pub base: Vec<u8>,
    pub id: Vec<u8>,
}

impl View for Archive {
    type V = (Seq<u8>, Seq<u8>);

    open spec fn view(&self) -> (Seq<u8>, Seq<u8>) {
        (self.base@, self.id@)
    }
}

/// The known archives, in the order in which they are tried.
#[derive(Clone, Debug, PartialEq, Eq)]
pub struct ArchiveTable {
    pub archives: Vec<Archive>,
}

/// The archives as mathematical data.
pub type ArchiveSeq = Seq<(Seq<u8>, Seq<u8>)>;

impl View for ArchiveTable {
    type V = ArchiveSeq;

    open spec fn view(&self) -> ArchiveSeq {
        Seq::new(self.archives@.len(), |i: int| self.archives@[i]@)
    }
}

impl Archive {
    /// An identical value.
    pub fn copy(&self) -> (r: Archive)
        ensures
            r@ == self@,
    {
        Archive { base: copy_bytes(self.base.as_slice()), id: copy_bytes(self.id.as_slice()) }
    }
}

impl ArchiveTable {
    /// A table without archives.
    pub fn new() -> (r: ArchiveTable)
        ensures
            r@ == Seq::<(Seq<u8>, Seq<u8>)>::empty(),
    {
        let r = ArchiveTable { archives: Vec::new() };
        assert(r@ =~= Seq::<(Seq<u8>, Seq<u8>)>::empty());
        r
    }

    /// Adds an archive after those already known.
    pub fn add(&mut self, base: Vec<u8>, id: Vec<u8>)
        ensures
            final(self)@ == old(self)@.push((base@, id@)),
    {
        self.archives.push(Archive { base, id });
        assert(self@ =~= old(self)@.push((base@, id@)));
    }

    /// An identical table.
    pub fn copy(&self) -> (r: ArchiveTable)
        ensures
            r@ == self@,
    {
        let mut r = ArchiveTable { archives: Vec::new() };
        let mut i: usize = 0;
        while i < self.archives.len()
            invariant
                i <= self.archives.len(),
                r.archives@.len() == i,
                forall|k: int| 0 <= k < i ==> (#[trigger] r.archives@[k])@ == self.archives@[k]@,
            decreases self.archives.len() - i,
        {
            r.archives.push(self.archives[i].copy());
            i += 1;
        }
        assert(r@ =~= self@);
        r
    }
}

/// The archives that are known under fixed addresses, with the number of
/// bytes of the address that name the archive.
pub open spec fn fixed_archive(p: Seq<u8>) -> Option<((Seq<u8>, Seq<u8>), int)> {
    if is_prefix(lit("http://mathhub.info/sTeX/meta"), p) {
        Some(((lit("http://mathhub.info/:sTeX"), lit("sTeX/meta-inf")), 29))
    } else if p == lit("http://cds.omdoc.org/urtheories") {
        Some(((lit("http://cds.omdoc.org"), lit("MMT/urtheories")), 31))
    } else if p == lit("http://mathhub.info/my/archive") {
        Some(((lit("http://mathhub.info"), lit("my/archive")), 30))
    } else if p == lit("http://kwarc.info/Papers/stex-mmt/paper") {
        Some(
            ((lit("http://mathhub.info/:sTeX"), lit("Papers/22-CICM-Injecting-Formal-Mathematics")), 34),
        )
    } else if p == lit("http://kwarc.info/Papers/tug/paper") {
        Some(((lit("http://mathhub.info/:sTeX"), lit("Papers/22-TUG-sTeX")), 34))
    } else {
        None
    }
}

/// The first archive from position `from` on whose base and then whose name
/// begin `p`, with the length of both.
pub open spec fn by_base(t: ArchiveSeq, p: Seq<u8>, from: int) -> Option<((Seq<u8>, Seq<u8>), int)>
    decreases t.len() - from,
{
    if from < 0 || from >= t.len() {
        None
    } else if is_prefix(t[from].0, p) && is_prefix(t[from].1, p.skip(t[from].0.len() as int)) {
        Some((t[from], (t[from].0.len() + t[from].1.len()) as int))
    } else {
        by_base(t, p, from + 1)
    }
}

/// The first archive from position `from` on whose name begins `p`, with
/// `len`, the length of the name and one more for a `/` that follows it.
pub open spec fn by_name(t: ArchiveSeq, p: Seq<u8>, len: int, from: int) -> Option<
    ((Seq<u8>, Seq<u8>), int),
>
    decreases t.len() - from,
{
    if from < 0 || from >= t.len() {
        None
    } else if is_prefix(t[from].1, p) {
        let l = t[from].1.len() as int;
        Some((t[from], len + l + if p.len() > l && p[l] == 0x2fu8 { 1int } else { 0int }))
    } else {
        by_name(t, p, len, from + 1)
    }
}

/// The archive that the address `p` lies in, with the number of bytes of `p`
/// that name it.
pub open spec fn archive_of(t: ArchiveSeq, p: Seq<u8>) -> Option<((Seq<u8>, Seq<u8>), int)> {
    if fixed_archive(p) is Some {
        fixed_archive(p)
    } else if is_prefix(lit("http://mathhub.info"), p) {
        let n = lit("http://mathhub.info").len() as int;
        if p.len() > n && p[n] == 0x2fu8 {
            by_name(t, p.skip(n + 1), n + 1, 0)
        } else {
            by_name(t, p.skip(n), n, 0)
        }
    } else {
        by_base(t, p, 0)
    }
}

/// What is left of `p` after the first `l` bytes and one `/`.
pub open spec fn path_after(p: Seq<u8>, l: int) -> Seq<u8> {
    let rest = if 0 <= l < p.len() { p.skip(l) } else { Seq::<u8>::empty() };
    if rest.len() > 0 && rest[0] == 0x2fu8 { rest.skip(1) } else { rest }
}

/// The module that `base/archive/path?name` names.
pub open spec fn path_module(t: ArchiveSeq, s: Seq<u8>, language: Language) -> Option<UriView> {
    match split_last(s, 0x3fu8) {
        None => None,
        Some((p, m)) => {
            let p = if p.len() > 0 && p.last() == 0x2fu8 { p.drop_last() } else { p };
            match archive_of(t, p) {
                None => None,
                Some((a, l)) => Some(
                    UriView::container(
                        UriKind::Module,
                        a,
                        path_after(p, l),
                        without_suffix(m, lit("-module")),
                        language,
                    ),
                ),
            }
        },
    }
}

/// The module and the name inside it that `module?name` or
/// `module?x[other?y]` name.
pub open spec fn path_member(t: ArchiveSeq, s: Seq<u8>, language: Language) -> Option<
    (UriView, Seq<u8>),
> {
    match split_first(s, 0x5bu8) {
        Some((m, rest)) => match (split_last(m, 0x3fu8), split_last(rest, 0x5du8)) {
            (Some((m, _)), Some((a, b))) => match (
                path_module(t, a, language),
                path_module(t, m, language),
            ) {
                (Some(am), Some(module)) => Some((module, am.name + seq![0x2fu8] + b)),
                _ => None,
            },
            _ => None,
        },
        None => match split_last(s, 0x3fu8) {
            Some((m, name)) => match path_module(t, m, language) {
                Some(module) => Some((module, name)),
                None => None,
            },
            None => None,
        },
    }
}

/// The symbol that a reference in path form names.
pub open spec fn path_symbol(t: ArchiveSeq, s: Seq<u8>, language: Language) -> Option<UriView> {
    match path_member(t, s, language) {
        Some((module, name)) => Some(module.with_item(UriKind::Symbol, name)),
        None => None,
    }
}

/// The symbol that a reference in path form names, read as a module.
pub open spec fn path_symbol_as_module(t: ArchiveSeq, s: Seq<u8>, language: Language) -> Option<
    UriView,
> {
    match path_member(t, s, language) {
        Some((module, name)) => Some(module.nested(name)),
        None => None,
    }
}

/// The document that `base/archive/path/name[.language][.tex]` names.
pub open spec fn path_document(t: ArchiveSeq, s: Seq<u8>) -> Option<UriView> {
    match split_last(without_suffix(s, lit(".tex")), 0x2fu8) {
        None => None,
        Some((p, m)) => match archive_of(t, p) {
            None => None,
            Some((a, l)) => {
                let language = rel_path_language(m);
                Some(
                    UriView::container(
                        UriKind::Document,
                        a,
                        path_after(p, l),
                        without_suffix(m, seq![0x2eu8] + language.code_bytes()),
                        language,
                    ),
                )
            },
        },
    }
}

/// Finds the first archive whose base and then whose name begin `p`.
fn find_by_base(table: &ArchiveTable, p: &[u8]) -> (r: Option<(Archive, usize)>)
    ensures
        match r {
            Some((a, l)) => by_base(table@, p@, 0) == Some((a@, l as int)) && l <= p@.len(),
            None => by_base(table@, p@, 0) is None,
        },
{
    let mut i: usize = 0;
    while i < table.archives.len()
        invariant
            i <= table.archives.len(),
            by_base(table@, p@, i as int) == by_base(table@, p@, 0),
        decreases table.archives.len() - i,
    {
        let a = &table.archives[i];
        assert(table@[i as int] == a@);
        if starts_with(p, a.base.as_slice()) {
            let rest = slice_bytes(p, a.base.len(), p.len());
            assert(rest@ == p@.skip(a.base@.len() as int));
            if starts_with(rest.as_slice(), a.id.as_slice()) {
                return Some((a.copy(), a.base.len() + a.id.len()));
            }
        }
        i += 1;
    }
    None
}

/// Finds the first archive whose name begins `p`.
fn find_by_name(table: &ArchiveTable, p: &[u8], len: usize) -> (r: Option<(Archive, usize)>)
    requires
        len + p@.len() <= usize::MAX,
    ensures
        match r {
            Some((a, l)) => by_name(table@, p@, len as int, 0) == Some((a@, l as int)) && l <= len
                + p@.len(),
            None => by_name(table@, p@, len as int, 0) is None,
        },
{
    let mut i: usize = 0;
    while i < table.archives.len()
        invariant
            i <= table.archives.len(),
            len + p@.len() <= usize::MAX,
            by_name(table@, p@, len as int, i as int) == by_name(table@, p@, len as int, 0),
        decreases table.archives.len() - i,
    {
        let a = &table.archives[i];
        assert(table@[i as int] == a@);
        if starts_with(p, a.id.as_slice()) {
            let l: usize = a.id.len();
            let extra: usize = if p.len() > l && p[l] == 0x2fu8 { 1 } else { 0 };
            return Some((a.copy(), len + l + extra));
        }
        i += 1;
    }
    None
}

/// One of the archives that are known under fixed addresses.
fn fixed(p: &[u8]) -> (r: Option<(Archive, usize)>)
    ensures
        match r {
            Some((a, l)) => fixed_archive(p@) == Some((a@, l as int)),
            None => fixed_archive(p@) is None,
        },
{
    if starts_with_str(p, "http://mathhub.info/sTeX/meta") {
        Some((make_archive("http://mathhub.info/:sTeX", "sTeX/meta-inf"), 29))
    } else if eq_str(p, "http://cds.omdoc.org/urtheories") {
        Some((make_archive("http://cds.omdoc.org", "MMT/urtheories"), 31))
    } else if eq_str(p, "http://mathhub.info/my/archive") {
        Some((make_archive("http://mathhub.info", "my/archive"), 30))
    } else if eq_str(p, "http://kwarc.info/Papers/stex-mmt/paper") {
        Some(
            (
                make_archive("http://mathhub.info/:sTeX", "Papers/22-CICM-Injecting-Formal-Mathematics"),
                34,
            ),
        )
    } else if eq_str(p, "http://kwarc.info/Papers/tug/paper") {
        Some((make_archive("http://mathhub.info/:sTeX", "Papers/22-TUG-sTeX"), 34))
    } else {
        None
    }
}

fn make_archive(base: &str, id: &str) -> (r: Archive)
    ensures
        r@ == (lit(base), lit(id)),
{
    Archive { base: crate::text::bytes_of(base), id: crate::text::bytes_of(id) }
}

/// Finds the archive that the address `p` lies in, and how many bytes of `p` name it.
pub fn split_archive(table: &ArchiveTable, p: &[u8]) -> (r: Option<(Archive, usize)>)
    ensures
        match r {
            Some((a, l)) => archive_of(table@, p@) == Some((a@, l as int)),
            None => archive_of(table@, p@) is None,
        },
{
    match fixed(p) {
        Some(x) => { return Some(x); },
        None => {},
    }
    if starts_with_str(p, "http://mathhub.info") {
        let n: usize = "http://mathhub.info".as_bytes().len();
        if p.len() > n && p[n] == 0x2fu8 {
            let rest = slice_bytes(p, n + 1, p.len());
            assert(rest@ == p@.skip(n + 1));
            find_by_name(table, rest.as_slice(), n + 1)
        } else {
            let rest = slice_bytes(p, n, p.len());
            assert(rest@ == p@.skip(n as int));
            find_by_name(table, rest.as_slice(), n)
        }
    } else {
        find_by_base(table, p)
    }
}

/// What is left of `p` after the first `l` bytes and one `/`.
fn rest_path(p: &[u8], l: usize) -> (r: Vec<u8>)
    ensures
        r@ == path_after(p@, l as int),
{
    let rest = if l < p.len() { slice_bytes(p, l, p.len()) } else { Vec::new() };
    assert(rest@ =~= if 0 <= l < p@.len() { p@.skip(l as int) } else { Seq::<u8>::empty() });
    if rest.len() > 0 && rest[0] == 0x2fu8 {
        let r = slice_bytes(rest.as_slice(), 1, rest.len());
        assert(r@ == rest@.skip(1));
        r
    } else {
        rest
    }
}

fn container(kind: UriKind, a: Archive, path: Vec<u8>, name: Vec<u8>, language: Language) -> (r: Uri)
    ensures
        r@ == UriView::container(kind, a@, path@, name@, language),
{
    let r = Uri { kind, base: a.base, archive: a.id, path, name, language, item: Vec::new() };
    assert(r.item@ =~= Seq::<u8>::empty());
    r
}

/// Resolves a module reference in path form.
pub fn get_mod_uri(table: &ArchiveTable, pathstr: &[u8], language: Language) -> (r: Option<Uri>)
    ensures
        match r {
            Some(u) => path_module(table@, pathstr@, language) == Some(u@),
            None => path_module(table@, pathstr@, language) is None,
        },
{
    let (p, m) = match rsplit_once(pathstr, 0x3fu8) {
        Some(x) => x,
        None => { return None; },
    };
    let m = strip_suffix_str(m, "-module");
    let p = if p.len() > 0 && p[p.len() - 1] == 0x2fu8 {
        let q = slice_bytes(p.as_slice(), 0, p.len() - 1);
        assert(q@ == p@.drop_last());
        q
    } else {
        p
    };
    match split_archive(table, p.as_slice()) {
        Some((a, l)) => Some(container(UriKind::Module, a, rest_path(p.as_slice(), l), m, language)),
        None => None,
    }
}

/// The module and the name inside it that a member reference in path form names.
fn get_member(table: &ArchiveTable, pathstr: &[u8], language: Language) -> (r: Option<(Uri, Vec<u8>)>)
    ensures
        match r {
            Some((u, n)) => path_member(table@, pathstr@, language) == Some((u@, n@)),
            None => path_member(table@, pathstr@, language) is None,
        },
{
    match split_once(pathstr, 0x5bu8) {
        Some((m, rest)) => {
            let (m, _) = match rsplit_once(m.as_slice(), 0x3fu8) {
                Some(x) => x,
                None => { return None; },
            };
            let (a, b) = match rsplit_once(rest.as_slice(), 0x5du8) {
                Some(x) => x,
                None => { return None; },
            };
            let am = match get_mod_uri(table, a.as_slice(), language) {
                Some(x) => x,
                None => { return None; },
            };
            let mut name = am.name;
            name.push(0x2fu8);
            crate::text::push_bytes(&mut name, b.as_slice());
            assert(name@ =~= am.name@ + seq![0x2fu8] + b@);
            let module = match get_mod_uri(table, m.as_slice(), language) {
                Some(x) => x,
                None => { return None; },
            };
            Some((module, name))
        },
        None => {
            let (m, name) = match rsplit_once(pathstr, 0x3fu8) {
                Some(x) => x,
                None => { return None; },
            };
            match get_mod_uri(table, m.as_slice(), language) {
                Some(module) => Some((module, name)),
                None => None,
            }
        },
    }
}

/// Resolves a symbol reference in path form.
pub fn get_sym_uri(table: &ArchiveTable, pathstr: &[u8], language: Language) -> (r: Option<Uri>)
    ensures
        match r {
            Some(u) => path_symbol(table@, pathstr@, language) == Some(u@),
            None => path_symbol(table@, pathstr@, language) is None,
        },
{
    match get_member(table, pathstr, language) {
        Some((module, name)) => Some(module.with_item(UriKind::Symbol, name.as_slice())),
        None => None,
    }
}

/// Resolves a symbol reference in path form and reads the symbol as a module.
pub fn get_sym_uri_as_mod(table: &ArchiveTable, pathstr: &[u8], language: Language) -> (r: Option<Uri>)
    ensures
        match r {
            Some(u) => path_symbol_as_module(table@, pathstr@, language) == Some(u@),
            None => path_symbol_as_module(table@, pathstr@, language) is None,
        },
{
    match get_member(table, pathstr, language) {
        Some((module, name)) => Some(module.nested(name.as_slice())),
        None => None,
    }
}

/// Resolves a document reference in path form.
pub fn get_doc_uri(table: &ArchiveTable, pathstr: &[u8]) -> (r: Option<Uri>)
    ensures
        match r {
            Some(u) => path_document(table@, pathstr@) == Some(u@),
            None => path_document(table@, pathstr@) is None,
        },
{
    let stem = strip_suffix_str(copy_bytes(pathstr), ".tex");
    let (p, m) = match rsplit_once(stem.as_slice(), 0x2fu8) {
        Some(x) => x,
        None => { return None; },
    };
    let (a, l) = match split_archive(table, p.as_slice()) {
        Some(x) => x,
        None => { return None; },
    };
    let language = Language::from_rel_path(m.as_slice());
    let mut ext: Vec<u8> = Vec::new();
    ext.push(0x2eu8);
    crate::text::push_str(&mut ext, language.code());
    assert(ext@ =~= seq![0x2eu8] + language.code_bytes());
    let m = if ends_with(m.as_slice(), ext.as_slice()) {
        slice_bytes(m.as_slice(), 0, m.len() - ext.len())
    } else {
        m
    };
    Some(container(UriKind::Document, a, rest_path(p.as_slice(), l), m, language))
}

/// The fields of a reference that is written out in full.
pub struct Fields {
    pub archive: Option<Seq<u8>>,
    pub path: Seq<u8>,
    pub name: Option<Seq<u8>>,
    pub language: Option<Language>,
    pub item: Option<Seq<u8>>,
    /// Whether the item was given as an element of a document (`e`), not as a symbol (`s`).
    pub element: bool,
}

impl Fields {
    /// No field has been read.
    pub open spec fn none() -> Fields {
        Fields {
            archive: None,
            path: Seq::<u8>::empty(),
            name: None,
            language: None,
            item: None,
            element: false,
        }
    }

    /// The fields after `key=value` was read; `None` where the piece is not
    /// of that shape, the key is unknown, or the language is.
    pub open spec fn read(self, piece: Seq<u8>) -> Option<Fields> {
        if piece.len() < 2 || piece[1] != 0x3du8 {
            None
        } else {
            let value = piece.skip(2);
            let key = piece[0];
            if key == 0x61u8 {
                Some(Fields { archive: Some(value), ..self })
            } else if key == 0x70u8 {
                Some(Fields { path: value, ..self })
            } else if key == 0x64u8 || key == 0x6du8 {
                Some(Fields { name: Some(value), ..self })
            } else if key == 0x6cu8 {
                match language_of(value) {
                    Some(l) => Some(Fields { language: Some(l), ..self }),
                    None => None,
                }
            } else if key == 0x73u8 || key == 0x65u8 {
                Some(Fields { item: Some(value), element: key == 0x65u8, ..self })
            } else {
                None
            }
        }
    }

    /// The fields after all pieces from position `from` on were read.
    pub open spec fn read_all(self, pieces: Seq<Seq<u8>>, from: int) -> Option<Fields>
        decreases pieces.len() - from,
    {
        if from < 0 || from >= pieces.len() {
            Some(self)
        } else {
            match self.read(pieces[from]) {
                Some(f) => f.read_all(pieces, from + 1),
                None => None,
            }
        }
    }
}

/// Whether a reference is written out in full: a `?` followed by `a=`.
pub open spec fn is_full(s: Seq<u8>) -> bool {
    match split_first(s, 0x3fu8) {
        Some((_, q)) => is_prefix(lit("a="), q),
        None => false,
    }
}

/// The identifier of kind `kind` that the full reference `s` names. The
/// archive and the name are required; an item is required for a symbol
/// (under `s`) or an element (under `e`) and refused otherwise; `language`
/// stands in where none is given.
pub open spec fn full_uri(s: Seq<u8>, kind: UriKind, language: Language) -> Option<UriView> {
    match split_first(s, 0x3fu8) {
        None => None,
        Some((base, q)) => match Fields::none().read_all(pieces(q, 0x26u8), 0) {
            None => None,
            Some(f) => {
                let wants_item = kind == UriKind::Symbol || kind == UriKind::Element;
                if f.archive is Some && f.name is Some && (f.item is Some) == wants_item && (wants_item
                    ==> f.element == (kind == UriKind::Element)) {
                    Some(
                        UriView {
                            kind,
                            base,
                            archive: f.archive.unwrap(),
                            path: f.path,
                            name: f.name.unwrap(),
                            language: match f.language {
                                Some(l) => l,
                                None => language,
                            },
                            item: match f.item {
                                Some(i) => i,
                                None => Seq::<u8>::empty(),
                            },
                        },
                    )
                } else {
                    None
                }
            },
        },
    }
}

/// Whether a reference is written out in full.
pub fn written_in_full(s: &[u8]) -> (r: bool)
    ensures
        r == is_full(s@),
{
    match split_once(s, 0x3fu8) {
        Some((_, q)) => starts_with_str(q.as_slice(), "a="),
        None => false,
    }
}

/// Reads a reference that is written out in full.
pub fn parse_full(s: &[u8], kind: UriKind, language: Language) -> (r: Option<Uri>)
    ensures
        match r {
            Some(u) => full_uri(s@, kind, language) == Some(u@),
            None => full_uri(s@, kind, language) is None,
        },
{
    let (base, q) = match split_once(s, 0x3fu8) {
        Some(x) => x,
        None => { return None; },
    };
    let parts = split(q.as_slice(), 0x26u8);
    let ghost ps = pieces(q@, 0x26u8);
    let mut archive: Option<Vec<u8>> = None;
    let mut path: Vec<u8> = Vec::new();
    let mut name: Option<Vec<u8>> = None;
    let mut lang: Option<Language> = None;
    let mut item: Option<Vec<u8>> = None;
    let mut element: bool = false;
    let mut i: usize = 0;
    assert(path@ =~= Seq::<u8>::empty());
    while i < parts.len()
        invariant
            i <= parts.len(),
            views(parts@) == ps,
            ps == pieces(q@, 0x26u8),
            split_first(s@, 0x3fu8) == Some((base@, q@)),
            (Fields {
                archive: opt_bytes(archive),
                path: path@,
                name: opt_bytes(name),
                language: lang,
                item: opt_bytes(item),
                element,
            }).read_all(ps, i as int) == Fields::none().read_all(ps, 0),
        decreases parts.len() - i,
    {
        let piece = &parts[i];
        assert(ps[i as int] == piece@);
        if piece.len() < 2 || piece[1] != 0x3du8 {
            return None;
        }
        let value = slice_bytes(piece.as_slice(), 2, piece.len());
        assert(value@ == piece@.skip(2));
        let key: u8 = piece[0];
        if key == 0x61u8 {
            archive = Some(value);
        } else if key == 0x70u8 {
            path = value;
        } else if key == 0x64u8 || key == 0x6du8 {
            name = Some(value);
        } else if key == 0x6cu8 {
            match Language::from_code(value.as_slice()) {
                Some(l) => {
                    lang = Some(l);
                },
                None => { return None; },
            }
        } else if key == 0x73u8 || key == 0x65u8 {
            item = Some(value);
            element = key == 0x65u8;
        } else {
            return None;
        }
        i += 1;
    }
    let wants_item = match kind {
        UriKind::Symbol => true,
        UriKind::Element => true,
        _ => false,
    };
    if item.is_some() != wants_item {
        return None;
    }
    let is_element = match kind {
        UriKind::Element => true,
        _ => false,
    };
    if wants_item && element != is_element {
        return None;
    }
    let archive = match archive {
        Some(a) => a,
        None => { return None; },
    };
    let name = match name {
        Some(n) => n,
        None => { return None; },
    };
    let language = match lang {
        Some(l) => l,
        None => language,
    };
    let item = match item {
        Some(i) => i,
        None => {
            let v: Vec<u8> = Vec::new();
            assert(v@ =~= Seq::<u8>::empty());
            v
        },
    };
    Some(Uri { kind, base, archive, path, name, language, item })
}

/// The symbol that the reference `s` names: read in full where it is written
/// in full, resolved against the archives otherwise.
pub open spec fn symbol_of(t: ArchiveSeq, s: Seq<u8>, language: Language) -> Option<UriView> {
    if is_full(s) {
        full_uri(s, UriKind::Symbol, language)
    } else {
        path_symbol(t, s, language)
    }
}

/// The module that the reference `s` names.
pub open spec fn module_of(t: ArchiveSeq, s: Seq<u8>, language: Language) -> Option<UriView> {
    if is_full(s) {
        full_uri(s, UriKind::Module, language)
    } else {
        path_module(t, s, language)
    }
}

/// The module that the symbol reference `s` names when the symbol is read as a module.
pub open spec fn symbol_as_module_of(t: ArchiveSeq, s: Seq<u8>, language: Language) -> Option<
    UriView,
> {
    if is_full(s) {
        match full_uri(s, UriKind::Symbol, language) {
            Some(u) => Some(u.as_module()),
            None => None,
        }
    } else {
        path_symbol_as_module(t, s, language)
    }
}

/// The document that the reference `s` names.
pub open spec fn document_of(t: ArchiveSeq, s: Seq<u8>, language: Language) -> Option<UriView> {
    if is_full(s) {
        full_uri(s, UriKind::Document, language)
    } else {
        path_document(t, s)
    }
}

/// The narrative element that the reference `s` names; only the full form names one.
pub open spec fn element_of(s: Seq<u8>, language: Language) -> Option<UriView> {
    if is_full(s) {
        full_uri(s, UriKind::Element, language)
    } else {
        None
    }
}

/// Resolves a symbol reference.
pub fn resolve_symbol(table: &ArchiveTable, s: &[u8], language: Language) -> (r: Option<Uri>)
    ensures
        match r {
            Some(u) => symbol_of(table@, s@, language) == Some(u@),
            None => symbol_of(table@, s@, language) is None,
        },
{
    if written_in_full(s) {
        parse_full(s, UriKind::Symbol, language)
    } else {
        get_sym_uri(table, s, language)
    }
}

/// Resolves a module reference.
pub fn resolve_module(table: &ArchiveTable, s: &[u8], language: Language) -> (r: Option<Uri>)
    ensures
        match r {
            Some(u) => module_of(table@, s@, language) == Some(u@),
            None => module_of(table@, s@, language) is None,
        },
{
    if written_in_full(s) {
        parse_full(s, UriKind::Module, language)
    } else {
        get_mod_uri(table, s, language)
    }
}

/// Resolves a symbol reference and reads the symbol as a module.
pub fn resolve_symbol_as_module(table: &ArchiveTable, s: &[u8], language: Language) -> (r: Option<Uri>)
    ensures
        match r {
            Some(u) => symbol_as_module_of(table@, s@, language) == Some(u@),
            None => symbol_as_module_of(table@, s@, language) is None,
        },
{
    if written_in_full(s) {
        match parse_full(s, UriKind::Symbol, language) {
            Some(u) => Some(u.into_module()),
            None => None,
        }
    } else {
        get_sym_uri_as_mod(table, s, language)
    }
}

/// Resolves a document reference.
pub fn resolve_document(table: &ArchiveTable, s: &[u8], language: Language) -> (r: Option<Uri>)
    ensures
        match r {
            Some(u) => document_of(table@, s@, language) == Some(u@),
            None => document_of(table@, s@, language) is None,
        },
{
    if written_in_full(s) {
        parse_full(s, UriKind::Document, language)
    } else {
        get_doc_uri(table, s)
    }
}

/// Resolves a reference to a narrative element.
pub fn resolve_element(s: &[u8], language: Language) -> (r: Option<Uri>)
    ensures
        match r {
            Some(u) => element_of(s@, language) == Some(u@),
            None => element_of(s@, language) is None,
        },
{
    if written_in_full(s) {
        parse_full(s, UriKind::Element, language)
    } else {
        None
    }
}

} // verus!
