//! The attribute set of an element: an ordered mapping with unique keys.

use vstd::prelude::*;
use crate::text::{eq_bytes, push_bytes};
use crate::markup::{attr_markup, attrs_markup, escape_into, escaped, escaped_len};

verus! {

/// One attribute as plain data.
#[derive(Clone, Debug, PartialEq, Eq)]
pub struct Attribute {
    pub name: Vec<u8>,
    pub value: Vec<u8>,
}

/// The mathematical content of an attribute set: names and values in insertion order.
pub type AttrSeq = Seq<(Seq<u8>, Seq<u8>)>;

/// Position of the first pair named `name`, or `-1`.
pub open spec fn position(a: AttrSeq, name: Seq<u8>) -> int
    decreases a.len(),
{
    if a.len() == 0 {
        -1
    } else if a[0].0 == name {
        0
    } else {
        let r = position(a.skip(1), name);
        if r < 0 { -1 } else { r + 1 }
    }
}

/// The value stored under `name`, if any.
pub open spec fn lookup(a: AttrSeq, name: Seq<u8>) -> Option<Seq<u8>> {
    if position(a, name) >= 0 {
        Some(a[position(a, name)].1)
    } else {
        None
    }
}

/// No two pairs share a name.
pub open spec fn unique_names(a: AttrSeq) -> bool {
    forall|i: int, j: int| 0 <= i < j < a.len() ==> (#[trigger] a[i]).0 != (#[trigger] a[j]).0
}

/// `a` with `name` bound to `value`: in place when present, at the end otherwise.
pub open spec fn with_value(a: AttrSeq, name: Seq<u8>, value: Seq<u8>) -> AttrSeq {
    if position(a, name) >= 0 {
        a.update(position(a, name), (name, value))
    } else {
        a.push((name, value))
    }
}

/// `a` without the pair named `name`.
pub open spec fn without(a: AttrSeq, name: Seq<u8>) -> AttrSeq {
    if position(a, name) >= 0 {
        a.remove(position(a, name))
    } else {
        a
    }
}

/// `position` points at the first pair of that name, or says that there is none.
pub proof fn lemma_position(a: AttrSeq, name: Seq<u8>)
    ensures
        -1 <= position(a, name) < a.len(),
        position(a, name) >= 0 ==> a[position(a, name)].0 == name,
        forall|k: int|
            0 <= k < a.len() && (position(a, name) < 0 || k < position(a, name)) ==> (#[trigger] a[k]).0
                != name,
    decreases a.len(),
{
    if a.len() > 0 && a[0].0 != name {
        lemma_position(a.skip(1), name);
        assert forall|k: int|
            0 <= k < a.len() && (position(a, name) < 0 || k < position(a, name)) implies (#[trigger] a[k]).0
            != name by {
            if k > 0 {
                assert(a.skip(1)[k - 1] == a[k]);
            }
        }
    }
}

/// Binding a name keeps the names unique.
pub proof fn lemma_with_value_unique(a: AttrSeq, name: Seq<u8>, value: Seq<u8>)
    requires
        unique_names(a),
    ensures
        unique_names(with_value(a, name, value)),
        lookup(with_value(a, name, value), name) == Some(value),
{
    lemma_position(a, name);
    let b = with_value(a, name, value);
    lemma_position(b, name);
    let p = position(a, name);
    if p >= 0 {
        assert(b[p].0 == name);
        assert forall|i: int, j: int| 0 <= i < j < b.len() implies (#[trigger] b[i]).0 != (#[trigger] b[j]).0 by {
            assert(b[i].0 == a[i].0);
            assert(b[j].0 == a[j].0);
        }
        let q = position(b, name);
        if q != p {
            if q < p {
                assert(a[q].0 == b[q].0);
            } else {
                assert(b[p].0 == name);
            }
        }
    } else {
        assert(b[b.len() - 1].0 == name);
        assert forall|i: int, j: int| 0 <= i < j < b.len() implies (#[trigger] b[i]).0 != (#[trigger] b[j]).0 by {
            if j < a.len() {
                assert(b[i] == a[i] && b[j] == a[j]);
            } else {
                assert(b[i] == a[i]);
            }
        }
        let q = position(b, name);
        if q < a.len() {
            assert(b[q] == a[q]);
        }
    }
}

/// Removing a name keeps the names unique, and the name is gone.
pub proof fn lemma_without_unique(a: AttrSeq, name: Seq<u8>)
    requires
        unique_names(a),
    ensures
        unique_names(without(a, name)),
        lookup(without(a, name), name) is None,
{
    lemma_position(a, name);
    let b = without(a, name);
    lemma_position(b, name);
    let p = position(a, name);
    if p >= 0 {
        assert forall|i: int, j: int| 0 <= i < j < b.len() implies (#[trigger] b[i]).0 != (#[trigger] b[j]).0 by {
            let i2 = if i < p { i } else { i + 1 };
            let j2 = if j < p { j } else { j + 1 };
            assert(b[i] == a[i2] && b[j] == a[j2]);
        }
        let q = position(b, name);
        if q >= 0 {
            let q2 = if q < p { q } else { q + 1 };
            assert(b[q] == a[q2]);
            assert(a[q2].0 == a[p].0);
        }
    }
}

/// An element's attributes.
#[derive(Clone, Debug, PartialEq, Eq)]
pub struct Attributes {
    items: Vec<Attribute>,
}

impl View for Attributes {
    type V = AttrSeq;

    closed spec fn view(&self) -> AttrSeq {
        Seq::new(self.items@.len(), |i: int| (self.items@[i].name@, self.items@[i].value@))
    }
}

impl Attributes {
    /// Keys are unique.
    pub open spec fn wf(&self) -> bool {
        unique_names(self@)
    }

    /// The empty attribute set.
    pub fn new() -> (r: Self)
        ensures
            r@ == Seq::<(Seq<u8>, Seq<u8>)>::empty(),
            r.wf(),
    {
        let r = Attributes { items: Vec::new() };
        assert(r@ =~= Seq::<(Seq<u8>, Seq<u8>)>::empty());
        r
    }

    /// Number of attributes.
    pub fn len(&self) -> (n: usize)
        ensures
            n == self@.len(),
    {
        self.items.len()
    }

    /// Name of the `i`-th attribute.
    pub fn name_at(&self, i: usize) -> (r: &Vec<u8>)
        requires
            i < self@.len(),
        ensures
            r@ == self@[i as int].0,
    {
        &self.items[i].name
    }

    /// Value of the `i`-th attribute.
    pub fn value_at(&self, i: usize) -> (r: &Vec<u8>)
        requires
            i < self@.len(),
        ensures
            r@ == self@[i as int].1,
    {
        &self.items[i].value
    }

    /// Index of the attribute named `name`.
    pub fn find(&self, name: &[u8]) -> (r: Option<usize>)
        ensures
            match r {
                Some(i) => i as int == position(self@, name@) && i < self@.len(),
                None => position(self@, name@) == -1,
            },
    {
        let mut i: usize = 0;
        while i < self.items.len()
            invariant
                i <= self.items.len(),
                forall|k: int| 0 <= k < i ==> (#[trigger] self@[k]).0 != name@,
            decreases self.items.len() - i,
        {
            if eq_bytes(self.items[i].name.as_slice(), name) {
                proof {
                    lemma_position(self@, name@);
                    let r = position(self@, name@);
                    assert(self@[i as int].0 == name@);
                    if r > i as int {
                        assert(self@[i as int].0 != name@);
                    }
                    if 0 <= r < i as int {
                        assert(self@[r].0 != name@);
                    }
                }
                return Some(i);
            }
            i += 1;
        }
        proof {
            lemma_position(self@, name@);
            let r = position(self@, name@);
            if r >= 0 {
                assert(self@[r].0 != name@);
            }
        }
        None
    }

    /// Whether an attribute named `name` is present.
    pub fn contains(&self, name: &[u8]) -> (r: bool)
        ensures
            r == lookup(self@, name@).is_some(),
    {
        self.find(name).is_some()
    }

    /// The value stored under `name`.
    pub fn value(&self, name: &[u8]) -> (r: Option<&Vec<u8>>)
        ensures
            match r {
                Some(v) => lookup(self@, name@) == Some(v@),
                None => lookup(self@, name@) is None,
            },
    {
        match self.find(name) {
            Some(i) => {
                assert(self@.len() == self.items@.len());
                Some(&self.items[i].value)
            },
            None => None,
        }
    }

    /// Adds `name = value` unless `name` is already bound; says whether it was added.
    pub fn insert(&mut self, name: Vec<u8>, value: Vec<u8>) -> (added: bool)
        ensures
            added == lookup(old(self)@, name@).is_none(),
            added ==> final(self)@ == old(self)@.push((name@, value@)),
            !added ==> final(self)@ == old(self)@,
            old(self).wf() ==> final(self).wf(),
    {
        match self.find(name.as_slice()) {
            Some(_) => false,
            None => {
                proof {
                    if self.wf() {
                        lemma_with_value_unique(self@, name@, value@);
                    }
                }
                self.items.push(Attribute { name, value });
                assert(self@ =~= old(self)@.push((name@, value@)));
                true
            },
        }
    }

    /// Binds `name` to `value`: in place when present, at the end otherwise.
    pub fn set(&mut self, name: Vec<u8>, value: Vec<u8>)
        ensures
            final(self)@ == with_value(old(self)@, name@, value@),
            old(self).wf() ==> final(self).wf(),
    {
        proof {
            if self.wf() {
                lemma_with_value_unique(self@, name@, value@);
            }
        }
        match self.find(name.as_slice()) {
            Some(i) => {
                assert(self@.len() == self.items@.len());
                self.items.set(i, Attribute { name, value });
                assert(self@ =~= with_value(old(self)@, name@, value@));
            },
            None => {
                self.items.push(Attribute { name, value });
                assert(self@ =~= with_value(old(self)@, name@, value@));
            },
        }
    }

    /// Removes the attribute named `name` and hands back its value.
    pub fn remove(&mut self, name: &[u8]) -> (r: Option<Vec<u8>>)
        ensures
            final(self)@ == without(old(self)@, name@),
            match r {
                Some(v) => lookup(old(self)@, name@) == Some(v@),
                None => lookup(old(self)@, name@) is None,
            },
            old(self).wf() ==> final(self).wf(),
    {
        proof {
            if self.wf() {
                lemma_without_unique(self@, name@);
            }
        }
        match self.find(name) {
            Some(i) => {
                assert(self@.len() == self.items@.len());
                let a = self.items.remove(i);
                assert(self@ =~= without(old(self)@, name@));
                Some(a.value)
            },
            None => None,
        }
    }

    /// Length in bytes of the serialized attributes; `None` when it does not fit.
    pub fn markup_len(&self) -> (r: Option<usize>)
        ensures
            match r {
                Some(n) => n == attrs_markup(self@).len(),
                None => attrs_markup(self@).len() > usize::MAX,
            },
    {
        let mut acc: usize = 0;
        let mut i: usize = 0;
        assert(self@.subrange(0, 0) =~= Seq::<(Seq<u8>, Seq<u8>)>::empty());
        while i < self.items.len()
            invariant
                i <= self.items.len(),
                self.items@.len() == self@.len(),
                acc == attrs_markup(self@.subrange(0, i as int)).len(),
            decreases self.items.len() - i,
        {
            proof {
                let nxt = self@.subrange(0, i + 1);
                assert(nxt.drop_last() =~= self@.subrange(0, i as int));
                assert(nxt.last() == self@[i as int]);
                lemma_markup_monotone(self@, i + 1);
            }
            let n: usize = self.items[i].name.len();
            let v = escaped_len(self.items[i].value.as_slice(), true);
            let v: usize = match v {
                Some(v) => v,
                None => { return None; },
            };
            // a space, the name, `="`, the value, `"`
            if n > usize::MAX - 4 || v > usize::MAX - 4 - n || acc > usize::MAX - 4 - n - v {
                return None;
            }
            acc = acc + 4 + n + v;
            i += 1;
        }
        assert(self@.subrange(0, self@.len() as int) =~= self@);
        Some(acc)
    }

    /// Appends the serialized attributes to `out`.
    pub fn write_markup(&self, out: &mut Vec<u8>)
        ensures
            final(out)@ == old(out)@ + attrs_markup(self@),
    {
        let mut i: usize = 0;
        assert(self@.subrange(0, 0) =~= Seq::<(Seq<u8>, Seq<u8>)>::empty());
        while i < self.items.len()
            invariant
                i <= self.items.len(),
                self.items@.len() == self@.len(),
                out@ == old(out)@ + attrs_markup(self@.subrange(0, i as int)),
            decreases self.items.len() - i,
        {
            proof {
                let nxt = self@.subrange(0, i + 1);
                assert(nxt.drop_last() =~= self@.subrange(0, i as int));
                assert(nxt.last() == self@[i as int]);
            }
            let ghost before = out@;
            out.push(0x20u8);
            push_bytes(out, self.items[i].name.as_slice());
            out.push(0x3du8);
            out.push(0x22u8);
            escape_into(out, self.items[i].value.as_slice(), true);
            out.push(0x22u8);
            assert(out@ =~= before + attr_markup(self@[i as int].0, self@[i as int].1));
            i += 1;
        }
        assert(self@.subrange(0, self@.len() as int) =~= self@);
    }
}

/// The markup of a prefix is no longer than the markup of the whole.
pub proof fn lemma_markup_monotone(a: AttrSeq, k: int)
    requires
        0 <= k <= a.len(),
    ensures
        attrs_markup(a.subrange(0, k)).len() <= attrs_markup(a).len(),
    decreases a.len() - k,
{
    if k < a.len() {
        lemma_markup_monotone(a, k + 1);
        let nxt = a.subrange(0, k + 1);
        assert(nxt.drop_last() =~= a.subrange(0, k));
    } else {
        assert(a.subrange(0, k) =~= a);
    }
}

} // verus!
