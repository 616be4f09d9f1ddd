//! Typed access to the attributes of the reserved namespace.

use vstd::prelude::*;
use crate::attributes::{lookup, with_value, without, AttrSeq, Attributes};
use crate::errors::{ErrorView, SHTMLError};
use crate::keys::SHTMLKey;
use crate::open::opt_uri;
use crate::resolve::{document_of, module_of, symbol_of};
use crate::sections::{level_of, SectionLevel};
use crate::state::{ExtractorState, StateView};
use crate::terms::{arity_of, assoc_of, dimension_of, parse_arity, ArgMode, AssocType, CognitiveDimension};
use crate::text::{
    copy_bytes, decimal, eq_str, is_digits, lit, opt_bytes, parse_decimal, pieces, split, trim,
    trimmed, views,
};
use crate::uris::{language_of, Language, Uri, UriView};

verus! {

/// The view of a result that carries an error.
pub open spec fn uri_result(r: Result<Uri, SHTMLError>) -> Result<UriView, ErrorView> {
    match r {
        Ok(u) => Ok(u@),
        Err(e) => Err(e@),
    }
}

/// What is missing or wrong under `key`: nothing is there, or `value` is and cannot be read.
pub open spec fn invalid(key: SHTMLKey, value: Option<Seq<u8>>) -> ErrorView {
    ErrorView::InvalidKeyFor(key, value)
}

/// The value of the attribute of `key`.
pub open spec fn get_spec(a: AttrSeq, key: SHTMLKey) -> Option<Seq<u8>> {
    lookup(a, key.attr())
}

/// The attributes without the attribute of `key`.
pub open spec fn drop_spec(a: AttrSeq, key: SHTMLKey) -> AttrSeq {
    without(a, key.attr())
}

/// Whether the attribute of `key` says `true`.
pub open spec fn bool_spec(a: AttrSeq, key: SHTMLKey) -> bool {
    get_spec(a, key) == Some(lit("true"))
}

/// The section level under `key`: a number from 0 to 6.
pub open spec fn level_spec(a: AttrSeq, key: SHTMLKey) -> Result<SectionLevel, ErrorView> {
    match get_spec(a, key) {
        None => Err(invalid(key, None)),
        Some(v) => if is_digits(v) && decimal(v) <= 255 && level_of(decimal(v) as u8) is Some {
            Ok(level_of(decimal(v) as u8).unwrap())
        } else {
            Err(invalid(key, Some(v)))
        },
    }
}

/// The language under `key`.
pub open spec fn language_spec(a: AttrSeq, key: SHTMLKey) -> Result<Language, ErrorView> {
    match get_spec(a, key) {
        None => Err(invalid(key, None)),
        Some(v) => match language_of(v) {
            Some(l) => Ok(l),
            None => Err(invalid(key, Some(v))),
        },
    }
}

/// The module that the reference under `key` names.
pub open spec fn module_spec(s: StateView, a: AttrSeq, key: SHTMLKey) -> Result<UriView, ErrorView> {
    match get_spec(a, key) {
        None => Err(invalid(key, None)),
        Some(v) => match module_of(s.archives, v, s.document.language) {
            Some(u) => Ok(u),
            None => Err(invalid(key, Some(v))),
        },
    }
}

/// The symbol that the reference under `key` names.
pub open spec fn symbol_spec(s: StateView, a: AttrSeq, key: SHTMLKey) -> Result<UriView, ErrorView> {
    match get_spec(a, key) {
        None => Err(invalid(key, None)),
        Some(v) => match symbol_of(s.archives, v, s.document.language) {
            Some(u) => Ok(u),
            None => Err(invalid(key, Some(v))),
        },
    }
}

/// The document that the reference under `key` names.
pub open spec fn document_spec(s: StateView, a: AttrSeq, key: SHTMLKey) -> Result<UriView, ErrorView> {
    match get_spec(a, key) {
        None => Err(invalid(key, None)),
        Some(v) => match document_of(s.archives, v, s.document.language) {
            Some(u) => Ok(u),
            None => Err(invalid(key, Some(v))),
        },
    }
}

/// The trimmed pieces of a comma-separated list.
pub open spec fn list_of(v: Seq<u8>) -> Seq<Seq<u8>> {
    pieces(v, 0x2cu8).map_values(|p: Seq<u8>| trimmed(p))
}

/// The list under `key`; empty where the attribute is absent.
pub open spec fn list_spec(a: AttrSeq, key: SHTMLKey) -> Seq<Seq<u8>> {
    match get_spec(a, key) {
        Some(v) => list_of(v),
        None => Seq::<Seq<u8>>::empty(),
    }
}

/// The state after an optional attribute could not be read: an error is
/// recorded where a value is there, is not empty, and cannot be read; a
/// missing or empty attribute goes unremarked.
pub open spec fn tolerate(s: StateView, e: ErrorView) -> StateView {
    match e {
        ErrorView::InvalidKeyFor(_, Some(v)) => if v.len() == 0 {
            s
        } else {
            s.with_error(e)
        },
        _ => s,
    }
}

/// The value of the attribute of `key`.
pub fn get<'a>(attrs: &'a Attributes, key: SHTMLKey) -> (r: Option<&'a Vec<u8>>)
    ensures
        match r {
            Some(v) => get_spec(attrs@, key) == Some(v@),
            None => get_spec(attrs@, key) is None,
        },
{
    attrs.value(key.attr_name().as_bytes())
}

/// An owned copy of the value of the attribute of `key`.
pub fn get_owned(attrs: &Attributes, key: SHTMLKey) -> (r: Option<Vec<u8>>)
    ensures
        opt_bytes(r) == get_spec(attrs@, key),
{
    match get(attrs, key) {
        Some(v) => Some(copy_bytes(v.as_slice())),
        None => None,
    }
}

/// Removes the attribute of `key` and hands back its value.
pub fn remove(attrs: &mut Attributes, key: SHTMLKey) -> (r: Option<Vec<u8>>)
    ensures
        opt_bytes(r) == get_spec(old(attrs)@, key),
        final(attrs)@ == drop_spec(old(attrs)@, key),
        old(attrs).wf() ==> final(attrs).wf(),
{
    attrs.remove(key.attr_name().as_bytes())
}

/// Whether the attribute of `key` says `true`.
pub fn get_bool(attrs: &Attributes, key: SHTMLKey) -> (r: bool)
    ensures
        r == bool_spec(attrs@, key),
{
    match get(attrs, key) {
        Some(v) => eq_str(v.as_slice(), "true"),
        None => false,
    }
}

/// Removes the attribute of `key` and says whether it said `true`.
pub fn take_bool(attrs: &mut Attributes, key: SHTMLKey) -> (r: bool)
    ensures
        r == bool_spec(old(attrs)@, key),
        final(attrs)@ == drop_spec(old(attrs)@, key),
        old(attrs).wf() ==> final(attrs).wf(),
{
    match remove(attrs, key) {
        Some(v) => eq_str(v.as_slice(), "true"),
        None => false,
    }
}

/// The section level under `key`.
pub fn get_section_level(attrs: &Attributes, key: SHTMLKey) -> (r: Result<SectionLevel, SHTMLError>)
    ensures
        match r {
            Ok(l) => level_spec(attrs@, key) == Ok::<SectionLevel, ErrorView>(l),
            Err(e) => level_spec(attrs@, key) == Err::<SectionLevel, ErrorView>(e@),
        },
{
    match get(attrs, key) {
        None => Err(SHTMLError::InvalidKeyFor(key, None)),
        Some(v) => {
            match parse_decimal(v.as_slice(), 255) {
                Some(n) => match SectionLevel::try_from(n as u8) {
                    Ok(l) => Ok(l),
                    Err(_) => Err(SHTMLError::InvalidKeyFor(key, Some(copy_bytes(v.as_slice())))),
                },
                None => Err(SHTMLError::InvalidKeyFor(key, Some(copy_bytes(v.as_slice())))),
            }
        },
    }
}

/// Removes the attribute of `key` and reads its value as a language.
pub fn take_language(attrs: &mut Attributes, key: SHTMLKey) -> (r: Result<Language, SHTMLError>)
    ensures
        match r {
            Ok(l) => language_spec(old(attrs)@, key) == Ok::<Language, ErrorView>(l),
            Err(e) => language_spec(old(attrs)@, key) == Err::<Language, ErrorView>(e@),
        },
        final(attrs)@ == drop_spec(old(attrs)@, key),
        old(attrs).wf() ==> final(attrs).wf(),
{
    match remove(attrs, key) {
        None => Err(SHTMLError::InvalidKeyFor(key, None)),
        Some(v) => match Language::from_code(v.as_slice()) {
            Some(l) => Ok(l),
            None => Err(SHTMLError::InvalidKeyFor(key, Some(v))),
        },
    }
}

/// Removes the attribute of `key` and resolves its value as a module reference.
pub fn take_module_uri(attrs: &mut Attributes, key: SHTMLKey, state: &ExtractorState) -> (r: Result<
    Uri,
    SHTMLError,
>)
    ensures
        uri_result(r) == module_spec(state@, old(attrs)@, key),
        final(attrs)@ == drop_spec(old(attrs)@, key),
        old(attrs).wf() ==> final(attrs).wf(),
{
    match remove(attrs, key) {
        None => Err(SHTMLError::InvalidKeyFor(key, None)),
        Some(v) => match state.get_mod_uri(v.as_slice()) {
            Some(u) => Ok(u),
            None => Err(SHTMLError::InvalidKeyFor(key, Some(v))),
        },
    }
}

/// Resolves the value of the attribute of `key` as a symbol reference.
pub fn get_symbol_uri(attrs: &Attributes, key: SHTMLKey, state: &ExtractorState) -> (r: Result<
    Uri,
    SHTMLError,
>)
    ensures
        uri_result(r) == symbol_spec(state@, attrs@, key),
{
    match get(attrs, key) {
        None => Err(SHTMLError::InvalidKeyFor(key, None)),
        Some(v) => match state.get_sym_uri(v.as_slice()) {
            Some(u) => Ok(u),
            None => Err(SHTMLError::InvalidKeyFor(key, Some(copy_bytes(v.as_slice())))),
        },
    }
}

/// Resolves the value of the attribute of `key` as a document reference.
pub fn get_document_uri(attrs: &Attributes, key: SHTMLKey, state: &ExtractorState) -> (r: Result<
    Uri,
    SHTMLError,
>)
    ensures
        uri_result(r) == document_spec(state@, attrs@, key),
{
    match get(attrs, key) {
        None => Err(SHTMLError::InvalidKeyFor(key, None)),
        Some(v) => match state.get_doc_uri(v.as_slice()) {
            Some(u) => Ok(u),
            None => Err(SHTMLError::InvalidKeyFor(key, Some(copy_bytes(v.as_slice())))),
        },
    }
}

/// The identifier of an element: the one it carries, or one generated from `prefix`.
pub fn get_id(attrs: &Attributes, state: &mut ExtractorState, prefix: &[u8]) -> (r: Vec<u8>)
    ensures
        match get_spec(attrs@, SHTMLKey::Id) {
            Some(v) => r@ == v && final(state)@ == old(state)@,
            None => r@ == old(state)@.fresh_id(prefix@) && final(state)@ == old(state)@.after_id(),
        },
        final(state)@.diagnostics.len() >= old(state)@.diagnostics.len(),
{
    match get(attrs, SHTMLKey::Id) {
        Some(v) => copy_bytes(v.as_slice()),
        None => state.new_id(prefix),
    }
}

/// Splits a comma-separated list and trims its pieces.
pub fn read_list(v: &[u8]) -> (r: Vec<Vec<u8>>)
    ensures
        views(r@) == list_of(v@),
{
    let parts = split(v, 0x2cu8);
    let mut r: Vec<Vec<u8>> = Vec::new();
    let mut i: usize = 0;
    while i < parts.len()
        invariant
            i <= parts.len(),
            views(parts@) == pieces(v@, 0x2cu8),
            r@.len() == i,
            forall|k: int| 0 <= k < i ==> (#[trigger] r@[k])@ == trimmed(parts@[k]@),
        decreases parts.len() - i,
    {
        r.push(trim(parts[i].as_slice()));
        i += 1;
    }
    assert(views(r@) =~= list_of(v@)) by {
        assert forall|k: int| 0 <= k < r@.len() implies views(r@)[k] == list_of(v@)[k] by {
            assert(views(parts@)[k] == parts@[k]@);
        }
    }
    r
}

/// The list under `key`; empty where the attribute is absent.
pub fn get_list(attrs: &Attributes, key: SHTMLKey) -> (r: Vec<Vec<u8>>)
    ensures
        views(r@) == list_spec(attrs@, key),
{
    match get(attrs, key) {
        Some(v) => read_list(v.as_slice()),
        None => {
            let r: Vec<Vec<u8>> = Vec::new();
            assert(views(r@) =~= Seq::<Seq<u8>>::empty());
            r
        },
    }
}

/// Rewrites the attribute of `key` to the identifier written out.
pub fn update(attrs: &mut Attributes, key: SHTMLKey, uri: &Uri)
    ensures
        final(attrs)@ == with_value(old(attrs)@, key.attr(), uri@.text()),
        old(attrs).wf() ==> final(attrs).wf(),
{
    attrs.set(crate::text::bytes_of(key.attr_name()), uri.to_bytes());
}

/// Records the error of an optional attribute where it is worth recording.
pub fn tolerated(state: &mut ExtractorState, e: SHTMLError)
    ensures
        final(state)@ == tolerate(old(state)@, e@),
        final(state)@.diagnostics.len() >= old(state)@.diagnostics.len(),
{
    let report = match &e {
        SHTMLError::InvalidKeyFor(_, Some(v)) => v.len() > 0,
        _ => false,
    };
    if report {
        state.add_error(e);
    }
}

} // verus!
