//! Looking up declarations in the extracted content.
//!
//! The content records of a document are listed in the order in which the
//! declarations were finished, so the declarations of a module precede the
//! module and stand one level deeper.

use vstd::prelude::*;
use crate::open::{copy_uris, uris_view, ElementView, OpenSHTMLElement};
use crate::paragraphs::{ParagraphView, UncheckedLogicalParagraph};
use crate::sections::{SectionView, UncheckedSection};
use crate::state::{records_view, Extraction, Record, RecordView};
use crate::text::{copy_list, eq_bytes, split_last, views};
use crate::uris::UriView;

verus! {

/// The last step of a name.
pub open spec fn last_step(name: Seq<u8>) -> Seq<u8> {
    match split_last(name, 0x2fu8) {
        Some((_, last)) => last,
        None => name,
    }
}

/// The name under which a declaration is found in its module, if it has one.
pub open spec fn declared_name(e: ElementView) -> Option<Seq<u8>> {
    match e {
        ElementView::Module { uri, .. } => Some(last_step(uri.name)),
        ElementView::MathStructure { uri, .. } => Some(last_step(uri.item)),
        ElementView::Morphism { uri: Some(uri), .. } => Some(last_step(uri.item)),
        ElementView::Symdecl { uri, .. } => Some(last_step(uri.item)),
        _ => None,
    }
}

/// Whether a declaration has declarations of its own.
pub open spec fn is_module_like(e: ElementView) -> bool {
    e is Module || e is MathStructure || e is Morphism
}

/// Where the declarations of the record at `i`, which stands at depth `d`,
/// begin: they are the records just before `i` that stand deeper.
pub open spec fn children_start(rs: Seq<RecordView>, i: int, d: int) -> int
    decreases i,
{
    if i <= 0 || i > rs.len() || rs[i - 1].depth <= d {
        i
    } else {
        children_start(rs, i - 1, d)
    }
}

/// The first record in `[lo, hi)` that stands at depth `d` and is declared
/// under `name`, or `-1`.
pub open spec fn first_named(rs: Seq<RecordView>, lo: int, hi: int, d: int, name: Seq<u8>) -> int
    decreases hi - lo,
{
    if lo < 0 || lo >= hi || lo >= rs.len() {
        -1
    } else if rs[lo].depth == d && declared_name(rs[lo].element) == Some(name) {
        lo
    } else {
        first_named(rs, lo + 1, hi, d, name)
    }
}

/// The record that the steps from position `k` on lead to, searched among
/// the records in `[lo, hi)` at depth `d`; `-1` where they lead nowhere. A
/// step that is not the last must lead to a module, a structure or a
/// morphism, whose declarations are searched for the next step.
pub open spec fn found(rs: Seq<RecordView>, lo: int, hi: int, d: int, steps: Seq<Seq<u8>>, k: int) -> int
    decreases steps.len() - k,
{
    if k < 0 || k >= steps.len() {
        -1
    } else {
        let j = first_named(rs, lo, hi, d, steps[k]);
        if j < 0 {
            -1
        } else if k == steps.len() - 1 {
            j
        } else if is_module_like(rs[j].element) {
            found(rs, children_start(rs, j, d), j, d + 1, steps, k + 1)
        } else {
            -1
        }
    }
}

/// The last step of a name.
fn last_of(name: &Vec<u8>) -> (r: Vec<u8>)
    ensures
        r@ == last_step(name@),
{
    match crate::text::rsplit_once(name.as_slice(), 0x2fu8) {
        Some((_, last)) => last,
        None => crate::text::copy_bytes(name.as_slice()),
    }
}

/// Whether the record is declared under `name`.
fn is_named(r: &Record, name: &[u8]) -> (b: bool)
    ensures
        b == (declared_name(r@.element) == Some(name@)),
{
    let n = match &r.element {
        OpenSHTMLElement::Module { uri, .. } => last_of(&uri.name),
        OpenSHTMLElement::MathStructure { uri, .. } => last_of(&uri.item),
        OpenSHTMLElement::Morphism { uri: Some(uri), .. } => last_of(&uri.item),
        OpenSHTMLElement::Symdecl { uri, .. } => last_of(&uri.item),
        _ => { return false; },
    };
    eq_bytes(n.as_slice(), name)
}

/// Whether the record has declarations of its own.
fn module_like(r: &Record) -> (b: bool)
    ensures
        b == is_module_like(r@.element),
{
    match &r.element {
        OpenSHTMLElement::Module { .. } => true,
        OpenSHTMLElement::MathStructure { .. } => true,
        OpenSHTMLElement::Morphism { .. } => true,
        _ => false,
    }
}

/// Finds the declaration that the steps of a name lead to, starting from
/// the modules of the document.
pub fn find_declaration(records: &Vec<Record>, steps: &Vec<Vec<u8>>) -> (r: Option<usize>)
    ensures
        match r {
            Some(i) => i < records@.len() && i as int == found(
                records_view(records@),
                0,
                records@.len() as int,
                0,
                views(steps@),
                0,
            ),
            None => found(records_view(records@), 0, records@.len() as int, 0, views(steps@), 0) == -1,
        },
{
    let ghost rs = records_view(records@);
    let ghost st = views(steps@);
    let mut lo: usize = 0;
    let mut hi: usize = records.len();
    let mut d: usize = 0;
    let mut k: usize = 0;
    while k < steps.len()
        invariant
            rs == records_view(records@),
            st == views(steps@),
            lo <= hi <= records@.len(),
            k <= steps@.len(),
            d == k,
            found(rs, lo as int, hi as int, d as int, st, k as int) == found(rs, 0, rs.len() as int, 0, st, 0),
        decreases steps.len() - k,
    {
        assert(st[k as int] == steps@[k as int]@);
        // the first record of the range that is declared under this step
        let mut j: usize = lo;
        let mut hit: bool = false;
        while j < hi
            invariant_except_break
                !hit,
            invariant
                rs == records_view(records@),
                st == views(steps@),
                lo <= j <= hi <= records@.len(),
                first_named(rs, j as int, hi as int, d as int, st[k as int]) == first_named(
                    rs,
                    lo as int,
                    hi as int,
                    d as int,
                    st[k as int],
                ),
                st[k as int] == steps@[k as int]@,
                k < steps@.len(),
            ensures
                lo <= j <= hi,
                hit ==> j < hi && j as int == first_named(rs, lo as int, hi as int, d as int, st[k as int]),
                !hit ==> first_named(rs, lo as int, hi as int, d as int, st[k as int]) == -1,
            decreases hi - j,
        {
            assert(rs[j as int] == records@[j as int]@);
            if records[j].depth == d && is_named(&records[j], steps[k].as_slice()) {
                hit = true;
                break ;
            }
            j += 1;
        }
        if !hit {
            return None;
        }
        assert(rs[j as int] == records@[j as int]@);
        if k == steps.len() - 1 {
            return Some(j);
        }
        if !module_like(&records[j]) {
            return None;
        }
        // the declarations of the record found
        let mut start: usize = j;
        while start > 0 && records[start - 1].depth > d
            invariant
                rs == records_view(records@),
                start <= j < records@.len(),
                children_start(rs, start as int, d as int) == children_start(rs, j as int, d as int),
            decreases start,
        {
            assert(rs[start - 1] == records@[start - 1]@);
            start -= 1;
        }
        proof {
            if start > 0 {
                assert(rs[start - 1] == records@[start - 1]@);
            }
        }
        lo = start;
        hi = j;
        d = d + 1;
        k = k + 1;
    }
    None
}

/// What has declarations that can be looked up by name.
pub trait ModuleTrait {
    /// The content records, as mathematical data.
    spec fn content(&self) -> Seq<RecordView>;

    /// The content records: every declaration behind the declarations that it holds.
    fn declarations(&self) -> (r: &Vec<Record>)
        ensures
            records_view(r@) == self.content(),
    ;

    /// Finds the declaration that the steps of a name lead to.
    fn find(&self, steps: &Vec<Vec<u8>>) -> (r: Option<usize>)
        ensures
            match r {
                Some(i) => i < self.content().len() && i as int == found(
                    self.content(),
                    0,
                    self.content().len() as int,
                    0,
                    views(steps@),
                    0,
                ),
                None => found(self.content(), 0, self.content().len() as int, 0, views(steps@), 0) == -1,
            },
    ;
}

impl ModuleTrait for Extraction {
    open spec fn content(&self) -> Seq<RecordView> {
        self@.declarations
    }

    fn declarations(&self) -> (r: &Vec<Record>) {
        &self.declarations
    }

    fn find(&self, steps: &Vec<Vec<u8>>) -> (r: Option<usize>) {
        find_declaration(&self.declarations, steps)
    }
}

/// The sections among the narrative records, in order.
pub open spec fn sections_of(rs: Seq<RecordView>, k: int) -> Seq<SectionView>
    decreases k,
{
    if k <= 0 {
        Seq::<SectionView>::empty()
    } else {
        match rs[k - 1].element {
            ElementView::Section { lvl, uri } => sections_of(rs, k - 1).push(
                SectionView { range: rs[k - 1].range, uri, level: lvl, title: rs[k - 1].title },
            ),
            _ => sections_of(rs, k - 1),
        }
    }
}

/// The sections of a document, in the order in which they were finished.
pub fn sections(records: &Vec<Record>) -> (r: Vec<UncheckedSection>)
    ensures
        Seq::new(r@.len(), |i: int| r@[i]@) == sections_of(records_view(records@), records@.len() as int),
{
    let ghost rs = records_view(records@);
    let mut out: Vec<UncheckedSection> = Vec::new();
    let mut i: usize = 0;
    assert(Seq::new(out@.len(), |i: int| out@[i]@) =~= sections_of(rs, 0));
    while i < records.len()
        invariant
            i <= records.len(),
            rs == records_view(records@),
            Seq::new(out@.len(), |i: int| out@[i]@) == sections_of(rs, i as int),
        decreases records.len() - i,
    {
        assert(rs[i as int] == records@[i as int]@);
        let ghost before = Seq::new(out@.len(), |i: int| out@[i]@);
        match &records[i].element {
            OpenSHTMLElement::Section { lvl, uri } => {
                let s = UncheckedSection {
                    range: records[i].range,
                    uri: uri.copy(),
                    level: *lvl,
                    title: records[i].title,
                };
                out.push(s);
                assert(Seq::new(out@.len(), |i: int| out@[i]@) =~= before.push(s@));
            },
            _ => {},
        }
        i += 1;
    }
    out
}

/// The logical paragraphs among the narrative records, in order.
pub open spec fn paragraphs_of(rs: Seq<RecordView>, k: int) -> Seq<ParagraphView>
    decreases k,
{
    if k <= 0 {
        Seq::<ParagraphView>::empty()
    } else {
        match rs[k - 1].element {
            ElementView::Paragraph { kind, inline, styles, uri, fors } => paragraphs_of(rs, k - 1).push(
                ParagraphView {
                    kind,
                    uri,
                    inline,
                    title: rs[k - 1].title,
                    range: rs[k - 1].range,
                    styles,
                    fors,
                },
            ),
            _ => paragraphs_of(rs, k - 1),
        }
    }
}

/// The logical paragraphs of a document, in the order in which they were finished.
pub fn paragraphs(records: &Vec<Record>) -> (r: Vec<UncheckedLogicalParagraph>)
    ensures
        Seq::new(r@.len(), |i: int| r@[i]@) == paragraphs_of(records_view(records@), records@.len() as int),
{
    let ghost rs = records_view(records@);
    let mut out: Vec<UncheckedLogicalParagraph> = Vec::new();
    let mut i: usize = 0;
    assert(Seq::new(out@.len(), |i: int| out@[i]@) =~= paragraphs_of(rs, 0));
    while i < records.len()
        invariant
            i <= records.len(),
            rs == records_view(records@),
            Seq::new(out@.len(), |i: int| out@[i]@) == paragraphs_of(rs, i as int),
        decreases records.len() - i,
    {
        assert(rs[i as int] == records@[i as int]@);
        let ghost before = Seq::new(out@.len(), |i: int| out@[i]@);
        match &records[i].element {
            OpenSHTMLElement::Paragraph { kind, inline, styles, uri, fors } => {
                let p = UncheckedLogicalParagraph {
                    kind: *kind,
                    uri: uri.copy(),
                    inline: *inline,
                    title: records[i].title,
                    range: records[i].range,
                    styles: copy_list(styles),
                    fors: copy_uris(fors),
                };
                assert(p@.fors =~= uris_view(fors@));
                out.push(p);
                assert(Seq::new(out@.len(), |i: int| out@[i]@) =~= before.push(p@));
            },
            _ => {},
        }
        i += 1;
    }
    out
}

} // verus!
