//! Identifiers of documents, modules, symbols and narrative elements, and the
//! resolution of textual references against the known archives.

use vstd::prelude::*;
use crate::text::{
    bytes_of, copy_bytes, ends_with_str, eq_bytes, eq_str, is_prefix, is_suffix, last_index,
    lemma_last_index, lit, push_bytes, push_str, rsplit_once, slice_bytes, split_first, split_last,
    split_once, starts_with, starts_with_str, strip_suffix_str, without_suffix,
};

verus! {

/// The language of a document or module.
#[derive(Copy, Clone, Debug, PartialEq, Eq, Structural)]
pub enum Language {
    English,
    German,
    French,
    Romanian,
    Arabic,
    Bulgarian,
    Russian,
    Finnish,
    Turkish,
    Slovenian,
}

/// The language that a two-letter code names.
pub open spec fn language_of(code: Seq<u8>) -> Option<Language> {
    if code == lit("en") {
        Some(Language::English)
    } else if code == lit("de") {
        Some(Language::German)
    } else if code == lit("fr") {
        Some(Language::French)
    } else if code == lit("ro") {
        Some(Language::Romanian)
    } else if code == lit("ar") {
        Some(Language::Arabic)
    } else if code == lit("bg") {
        Some(Language::Bulgarian)
    } else if code == lit("ru") {
        Some(Language::Russian)
    } else if code == lit("fi") {
        Some(Language::Finnish)
    } else if code == lit("tr") {
        Some(Language::Turkish)
    } else if code == lit("sl") {
        Some(Language::Slovenian)
    } else {
        None
    }
}

/// The language that a file name announces by its last extension (a final
/// `.tex` aside); English where it announces none.
pub open spec fn rel_path_language(name: Seq<u8>) -> Language {
    match split_last(without_suffix(name, lit(".tex")), 0x2eu8) {
        Some((_, ext)) => match language_of(ext) {
            Some(l) => l,
            None => Language::English,
        },
        None => Language::English,
    }
}

impl Language {
    /// The two-letter code of the language.
    pub open spec fn code_bytes(self) -> Seq<u8> {
        match self {
            Language::English => lit("en"),
            Language::German => lit("de"),
            Language::French => lit("fr"),
            Language::Romanian => lit("ro"),
            Language::Arabic => lit("ar"),
            Language::Bulgarian => lit("bg"),
            Language::Russian => lit("ru"),
            Language::Finnish => lit("fi"),
            Language::Turkish => lit("tr"),
            Language::Slovenian => lit("sl"),
        }
    }

    /// The two-letter code of the language.
    pub fn code(self) -> (r: &'static str)
        ensures
            lit(r) == self.code_bytes(),
    {
        match self {
            Language::English => "en",
            Language::German => "de",
            Language::French => "fr",
            Language::Romanian => "ro",
            Language::Arabic => "ar",
            Language::Bulgarian => "bg",
            Language::Russian => "ru",
            Language::Finnish => "fi",
            Language::Turkish => "tr",
            Language::Slovenian => "sl",
        }
    }

    /// Reads a two-letter code.
    pub fn from_code(code: &[u8]) -> (r: Option<Language>)
        ensures
            r == language_of(code@),
    {
        if eq_str(code, "en") {
            Some(Language::English)
        } else if eq_str(code, "de") {
            Some(Language::German)
        } else if eq_str(code, "fr") {
            Some(Language::French)
        } else if eq_str(code, "ro") {
            Some(Language::Romanian)
        } else if eq_str(code, "ar") {
            Some(Language::Arabic)
        } else if eq_str(code, "bg") {
            Some(Language::Bulgarian)
        } else if eq_str(code, "ru") {
            Some(Language::Russian)
        } else if eq_str(code, "fi") {
            Some(Language::Finnish)
        } else if eq_str(code, "tr") {
            Some(Language::Turkish)
        } else if eq_str(code, "sl") {
            Some(Language::Slovenian)
        } else {
            None
        }
    }

    /// The language that a file name announces.
    pub fn from_rel_path(name: &[u8]) -> (r: Language)
        ensures
            r == rel_path_language(name@),
    {
        let stem = strip_suffix_str(copy_bytes(name), ".tex");
        match rsplit_once(stem.as_slice(), 0x2eu8) {
            Some((_, ext)) => match Language::from_code(ext.as_slice()) {
                Some(l) => l,
                None => Language::English,
            },
            None => Language::English,
        }
    }
}

/// What an identifier names.
#[derive(Copy, Clone, Debug, PartialEq, Eq, Structural)]
pub enum UriKind {
    Document,
    Module,
    Symbol,
    Element,
}

/// An identifier: an archive, a path inside it, the name of a document or
/// module, its language, and, for a symbol or a narrative element, the name of
/// the item inside that module or document.
#[derive(Clone, Debug, PartialEq, Eq)]
pub struct Uri {
    pub kind: UriKind,
    pub base: Vec<u8>,
    pub archive: Vec<u8>,
    pub path: Vec<u8>,
    pub name: Vec<u8>,
    pub language: Language,
    pub item: Vec<u8>,
}

/// An identifier as mathematical data.
pub struct UriView {
    pub kind: UriKind,
    pub base: Seq<u8>,
    pub archive: Seq<u8>,
    pub path: Seq<u8>,
    pub name: Seq<u8>,
    pub language: Language,
    pub item: Seq<u8>,
}

impl View for Uri {
    type V = UriView;

    open spec fn view(&self) -> UriView {
        UriView {
            kind: self.kind,
            base: self.base@,
            archive: self.archive@,
            path: self.path@,
            name: self.name@,
            language: self.language,
            item: self.item@,
        }
    }
}

impl UriView {
    /// The identifier of the module or document named `name` at `path` in an archive.
    pub open spec fn container(
        kind: UriKind,
        archive: (Seq<u8>, Seq<u8>),
        path: Seq<u8>,
        name: Seq<u8>,
        language: Language,
    ) -> UriView {
        UriView { kind, base: archive.0, archive: archive.1, path, name, language, item: Seq::<u8>::empty() }
    }

    /// The identifier of the item `item` inside this module or document.
    pub open spec fn with_item(self, kind: UriKind, item: Seq<u8>) -> UriView {
        UriView { kind, item, ..self }
    }

    /// The module nested under this one by the name step `step`.
    pub open spec fn nested(self, step: Seq<u8>) -> UriView {
        UriView { name: self.name + seq![0x2fu8] + step, ..self }
    }

    /// This symbol read as the module of the same full name.
    pub open spec fn as_module(self) -> UriView {
        UriView {
            kind: UriKind::Module,
            name: self.name + seq![0x2fu8] + self.item,
            item: Seq::<u8>::empty(),
            ..self
        }
    }

    /// This module read as a symbol of its parent module; `None` where the
    /// module is not nested.
    pub open spec fn as_symbol(self) -> Option<UriView> {
        match split_last(self.name, 0x2fu8) {
            Some((outer, last)) => Some(
                UriView { kind: UriKind::Symbol, name: outer, item: last, ..self },
            ),
            None => None,
        }
    }

    /// The last step of the name.
    pub open spec fn last_name(self) -> Seq<u8> {
        match split_last(self.name, 0x2fu8) {
            Some((_, last)) => last,
            None => self.name,
        }
    }

    /// The identifier written out:
    /// `base?a=archive[&p=path]&m=name&l=language[&s=item]`, with `d` for `m`
    /// and `e` for `s` in a document or one of its elements.
    pub open spec fn text(self) -> Seq<u8> {
        let in_doc = self.kind == UriKind::Document || self.kind == UriKind::Element;
        let has_item = self.kind == UriKind::Symbol || self.kind == UriKind::Element;
        self.base + lit("?a=") + self.archive + (if self.path.len() > 0 {
            lit("&p=") + self.path
        } else {
            Seq::<u8>::empty()
        }) + (if in_doc {
            lit("&d=")
        } else {
            lit("&m=")
        }) + self.name + lit("&l=") + self.language.code_bytes() + (if has_item {
            (if in_doc {
                lit("&e=")
            } else {
                lit("&s=")
            }) + self.item
        } else {
            Seq::<u8>::empty()
        })
    }
}

impl Uri {
    /// An identical identifier.
    pub fn copy(&self) -> (r: Uri)
        ensures
            r@ == self@,
    {
        Uri {
            kind: self.kind,
            base: copy_bytes(self.base.as_slice()),
            archive: copy_bytes(self.archive.as_slice()),
            path: copy_bytes(self.path.as_slice()),
            name: copy_bytes(self.name.as_slice()),
            language: self.language,
            item: copy_bytes(self.item.as_slice()),
        }
    }

    /// Whether two identifiers are the same.
    pub fn same(&self, other: &Uri) -> (r: bool)
        ensures
            r == (self@ == other@),
    {
        self.kind == other.kind && self.language == other.language && eq_bytes(
            self.base.as_slice(),
            other.base.as_slice(),
        ) && eq_bytes(self.archive.as_slice(), other.archive.as_slice()) && eq_bytes(
            self.path.as_slice(),
            other.path.as_slice(),
        ) && eq_bytes(self.name.as_slice(), other.name.as_slice()) && eq_bytes(
            self.item.as_slice(),
            other.item.as_slice(),
        )
    }

    /// The identifier of the item `item` inside this module or document.
    pub fn with_item(&self, kind: UriKind, item: &[u8]) -> (r: Uri)
        ensures
            r@ == self@.with_item(kind, item@),
    {
        let mut r = self.copy();
        r.kind = kind;
        r.item = copy_bytes(item);
        r
    }

    /// The module nested under this one by the name step `step`.
    pub fn nested(&self, step: &[u8]) -> (r: Uri)
        ensures
            r@ == self@.nested(step@),
    {
        let mut r = self.copy();
        r.name.push(0x2fu8);
        push_bytes(&mut r.name, step);
        assert(r.name@ =~= self.name@ + seq![0x2fu8] + step@);
        r
    }

    /// This symbol read as the module of the same full name.
    pub fn into_module(&self) -> (r: Uri)
        ensures
            r@ == self@.as_module(),
    {
        let mut r = self.copy();
        r.kind = UriKind::Module;
        r.name.push(0x2fu8);
        push_bytes(&mut r.name, self.item.as_slice());
        r.item = Vec::new();
        assert(r.name@ =~= self.name@ + seq![0x2fu8] + self.item@);
        assert(r.item@ =~= Seq::<u8>::empty());
        r
    }

    /// This module read as a symbol of its parent module.
    pub fn into_symbol(&self) -> (r: Option<Uri>)
        ensures
            match r {
                Some(u) => self@.as_symbol() == Some(u@),
                None => self@.as_symbol() is None,
            },
    {
        match rsplit_once(self.name.as_slice(), 0x2fu8) {
            Some((outer, last)) => {
                let mut r = self.copy();
                r.kind = UriKind::Symbol;
                r.name = outer;
                r.item = last;
                Some(r)
            },
            None => None,
        }
    }

    /// The last step of the name.
    pub fn last_name(&self) -> (r: Vec<u8>)
        ensures
            r@ == self@.last_name(),
    {
        match rsplit_once(self.name.as_slice(), 0x2fu8) {
            Some((_, last)) => last,
            None => copy_bytes(self.name.as_slice()),
        }
    }

    /// The identifier written out.
    pub fn to_bytes(&self) -> (r: Vec<u8>)
        ensures
            r@ == self@.text(),
    {
        let in_doc = match self.kind {
            UriKind::Document => true,
            UriKind::Element => true,
            _ => false,
        };
        let has_item = match self.kind {
            UriKind::Symbol => true,
            UriKind::Element => true,
            _ => false,
        };
        let mut r = copy_bytes(self.base.as_slice());
        push_str(&mut r, "?a=");
        push_bytes(&mut r, self.archive.as_slice());
        if self.path.len() > 0 {
            push_str(&mut r, "&p=");
            push_bytes(&mut r, self.path.as_slice());
        }
        assert(r@ =~= self.base@ + lit("?a=") + self.archive@ + (if self.path@.len() > 0 {
            lit("&p=") + self.path@
        } else {
            Seq::<u8>::empty()
        }));
        if in_doc {
            push_str(&mut r, "&d=");
        } else {
            push_str(&mut r, "&m=");
        }
        push_bytes(&mut r, self.name.as_slice());
        push_str(&mut r, "&l=");
        push_str(&mut r, self.language.code());
        let ghost mid = r@;
        if has_item {
            if in_doc {
                push_str(&mut r, "&e=");
            } else {
                push_str(&mut r, "&s=");
            }
            push_bytes(&mut r, self.item.as_slice());
        }
        assert(r@ =~= self@.text());
        r
    }
}

} // verus!
