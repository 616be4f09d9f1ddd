//! The side buffer of encoded resources.
//!
//! Large finished values are encoded one after the other into one buffer;
//! what refers to such a value holds a handle: where its bytes start, how
//! many they are, and which document owns the buffer.

use vstd::prelude::*;
use crate::text::push_bytes;
use crate::uris::{Uri, UriView};

verus! {

/// A handle to an encoded value in the side buffer of a document.
#[derive(Clone, Debug, PartialEq, Eq)]
pub struct LazyDocRef {
    pub offset: usize,
    pub len: usize,
    pub owner: Uri,
}

/// A handle as mathematical data.
pub struct HandleView {
    pub offset: usize,
    pub len: usize,
    pub owner: UriView,
}

impl View for LazyDocRef {
    type V = HandleView;

    open spec fn view(&self) -> HandleView {
        HandleView { offset: self.offset, len: self.len, owner: self.owner@ }
    }
}

impl LazyDocRef {
    /// A handle to `len` bytes at `offset` in the buffer of `owner`.
    pub fn new(offset: usize, len: usize, owner: Uri) -> (r: LazyDocRef)
        ensures
            r@ == (HandleView { offset, len, owner: owner@ }),
    {
        LazyDocRef { offset, len, owner }
    }
}

/// Appends an encoded value to the buffer and hands back the handle to it.
pub fn add_resource(buffer: &mut Vec<u8>, encoded: &[u8], owner: &Uri) -> (r: LazyDocRef)
    ensures
        final(buffer)@ == old(buffer)@ + encoded@,
        r@.offset == old(buffer)@.len(),
        r@.len == encoded@.len(),
        r@.owner == owner@,
{
    let offset = buffer.len();
    push_bytes(buffer, encoded);
    LazyDocRef::new(offset, encoded.len(), owner.copy())
}

/// The encoded values one after the other.
pub open spec fn framed(encoded: Seq<Seq<u8>>, k: int) -> Seq<u8>
    decreases k,
{
    if k <= 0 {
        Seq::<u8>::empty()
    } else {
        framed(encoded, k - 1) + encoded[k - 1]
    }
}

/// Frames the encoded values of a document: the buffer holds them one after
/// the other, and the `k`-th handle cuts the `k`-th value out of it.
pub fn frame_resources(encoded: &Vec<Vec<u8>>, owner: &Uri) -> (r: (Vec<u8>, Vec<LazyDocRef>))
    ensures
        r.0@ == framed(crate::text::views(encoded@), encoded@.len() as int),
        r.1@.len() == encoded@.len(),
        forall|k: int|
            0 <= k < encoded@.len() ==> {
                let h = #[trigger] r.1@[k];
                &&& h.owner@ == owner@
                &&& h.offset + h.len <= r.0@.len()
                &&& h.offset == framed(crate::text::views(encoded@), k).len()
                &&& r.0@.subrange(h.offset as int, h.offset + h.len) == encoded@[k]@
            },
{
    let mut buffer: Vec<u8> = Vec::new();
    let mut handles: Vec<LazyDocRef> = Vec::new();
    let ghost vs = crate::text::views(encoded@);
    let mut i: usize = 0;
    while i < encoded.len()
        invariant
            i <= encoded.len(),
            vs == crate::text::views(encoded@),
            buffer@ == framed(vs, i as int),
            handles@.len() == i,
            forall|k: int|
                0 <= k < i ==> {
                    let h = #[trigger] handles@[k];
                    &&& h.owner@ == owner@
                    &&& h.offset + h.len <= buffer@.len()
                    &&& h.offset == framed(vs, k).len()
                    &&& buffer@.subrange(h.offset as int, h.offset + h.len) == encoded@[k]@
                },
        decreases encoded.len() - i,
    {
        let ghost before = buffer@;
        let ghost old_handles = handles@;
        assert(vs[i as int] == encoded@[i as int]@);
        let h = add_resource(&mut buffer, encoded[i].as_slice(), owner);
        let ghost added = h;
        handles.push(h);
        proof {
            assert(added@.offset == before.len());
            assert(added@.len == encoded@[i as int]@.len());
            assert(buffer@ == before + encoded@[i as int]@);
            assert(handles@[i as int] == added);
            assert forall|k: int| 0 <= k < i + 1 implies {
                let h = #[trigger] handles@[k];
                &&& h.owner@ == owner@
                &&& h.offset + h.len <= buffer@.len()
                &&& h.offset == framed(vs, k).len()
                &&& buffer@.subrange(h.offset as int, h.offset + h.len) == encoded@[k]@
            } by {
                let h = handles@[k];
                if k < i {
                    assert(h == old_handles[k]);
                    assert(buffer@.subrange(h.offset as int, h.offset + h.len) =~= before.subrange(
                        h.offset as int,
                        h.offset + h.len,
                    ));
                } else {
                    assert(h == added);
                    assert(h.offset == before.len());
                    assert(h.len == encoded@[k]@.len());
                    assert(buffer@.subrange(h.offset as int, h.offset + h.len) =~= encoded@[k]@);
                }
            }
        }
        i += 1;
    }
    (buffer, handles)
}

} // verus!
