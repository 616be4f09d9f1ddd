//! Byte-string primitives.
//!
//! All text handled by this crate is kept as UTF-8 bytes, so that every length
//! is a length in bytes of the serialized markup.

use vstd::prelude::*;
use vstd::string::*;
use vstd::slice::*;

verus! {

/// The bytes of a string slice.
pub open spec fn lit(s: &str) -> Seq<u8> {
    s.spec_bytes()
}

/// `p` is a prefix of `a`.
pub open spec fn is_prefix(p: Seq<u8>, a: Seq<u8>) -> bool {
    p.len() <= a.len() && a.subrange(0, p.len() as int) == p
}

/// `p` is a suffix of `a`.
pub open spec fn is_suffix(p: Seq<u8>, a: Seq<u8>) -> bool {
    p.len() <= a.len() && a.subrange(a.len() - p.len(), a.len() as int) == p
}

/// Index of the first occurrence of `b` in `a`, or `-1`.
pub open spec fn first_index(a: Seq<u8>, b: u8) -> int
    decreases a.len(),
{
    if a.len() == 0 {
        -1
    } else if a[0] == b {
        0
    } else {
        let r = first_index(a.skip(1), b);
        if r < 0 { -1 } else { r + 1 }
    }
}

/// Index of the last occurrence of `b` in `a`, or `-1`.
pub open spec fn last_index(a: Seq<u8>, b: u8) -> int
    decreases a.len(),
{
    if a.len() == 0 {
        -1
    } else if a.last() == b {
        a.len() - 1
    } else {
        last_index(a.drop_last(), b)
    }
}

/// `first_index` points at the first occurrence, or says that there is none.
pub proof fn lemma_first_index(a: Seq<u8>, b: u8)
    ensures
        -1 <= first_index(a, b) < a.len(),
        first_index(a, b) >= 0 ==> a[first_index(a, b)] == b,
        forall|k: int| 0 <= k < a.len() && (first_index(a, b) < 0 || k < first_index(a, b)) ==> a[k] != b,
    decreases a.len(),
{
    if a.len() > 0 && a[0] != b {
        lemma_first_index(a.skip(1), b);
        let r = first_index(a.skip(1), b);
        assert forall|k: int| 0 <= k < a.len() && (first_index(a, b) < 0 || k < first_index(a, b)) implies a[k] != b by {
            if k > 0 {
                assert(a.skip(1)[k - 1] == a[k]);
            }
        }
    }
}

/// `last_index` points at the last occurrence, or says that there is none.
pub proof fn lemma_last_index(a: Seq<u8>, b: u8)
    ensures
        -1 <= last_index(a, b) < a.len(),
        last_index(a, b) >= 0 ==> a[last_index(a, b)] == b,
        forall|k: int| 0 <= k < a.len() && k > last_index(a, b) ==> a[k] != b,
    decreases a.len(),
{
    if a.len() > 0 && a.last() != b {
        lemma_last_index(a.drop_last(), b);
        assert forall|k: int| 0 <= k < a.len() && k > last_index(a, b) implies a[k] != b by {
            if k < a.len() - 1 {
                assert(a.drop_last()[k] == a[k]);
            }
        }
    }
}

/// An owned copy of a byte slice.
pub fn copy_bytes(a: &[u8]) -> (r: Vec<u8>)
    ensures
        r@ == a@,
{
    let mut r: Vec<u8> = Vec::new();
    let mut i: usize = 0;
    while i < a.len()
        invariant
            i <= a.len(),
            r@ == a@.subrange(0, i as int),
        decreases a.len() - i,
    {
        r.push(a[i]);
        i += 1;
    }
    r
}

/// The bytes of a string slice, owned.
pub fn bytes_of(s: &str) -> (r: Vec<u8>)
    ensures
        r@ == lit(s),
{
    copy_bytes(s.as_bytes())
}

/// Byte-wise equality.
pub fn eq_bytes(a: &[u8], b: &[u8]) -> (r: bool)
    ensures
        r == (a@ == b@),
{
    if a.len() != b.len() {
        return false;
    }
    let mut i: usize = 0;
    while i < a.len()
        invariant
            i <= a.len(),
            a.len() == b.len(),
            a@.subrange(0, i as int) == b@.subrange(0, i as int),
        decreases a.len() - i,
    {
        if a[i] != b[i] {
            return false;
        }
        assert(a@.subrange(0, i + 1) == a@.subrange(0, i as int).push(a@[i as int]));
        assert(b@.subrange(0, i + 1) == b@.subrange(0, i as int).push(b@[i as int]));
        i += 1;
    }
    assert(a@ == a@.subrange(0, a.len() as int));
    assert(b@ == b@.subrange(0, b.len() as int));
    true
}

/// Equality of a byte slice with the bytes of a string slice.
pub fn eq_str(a: &[u8], s: &str) -> (r: bool)
    ensures
        r == (a@ == lit(s)),
{
    eq_bytes(a, s.as_bytes())
}

/// Whether `a` begins with `p`.
pub fn starts_with(a: &[u8], p: &[u8]) -> (r: bool)
    ensures
        r == is_prefix(p@, a@),
{
    if p.len() > a.len() {
        return false;
    }
    let mut i: usize = 0;
    while i < p.len()
        invariant
            i <= p.len(),
            p.len() <= a.len(),
            a@.subrange(0, i as int) == p@.subrange(0, i as int),
        decreases p.len() - i,
    {
        if a[i] != p[i] {
            assert(a@.subrange(0, p.len() as int)[i as int] != p@[i as int]);
            return false;
        }
        assert(a@.subrange(0, i + 1) == a@.subrange(0, i as int).push(a@[i as int]));
        assert(p@.subrange(0, i + 1) == p@.subrange(0, i as int).push(p@[i as int]));
        i += 1;
    }
    assert(p@ == p@.subrange(0, p.len() as int));
    true
}

/// Whether `a` begins with the bytes of `s`.
pub fn starts_with_str(a: &[u8], s: &str) -> (r: bool)
    ensures
        r == is_prefix(lit(s), a@),
{
    starts_with(a, s.as_bytes())
}

/// Whether `a` ends with `p`.
pub fn ends_with(a: &[u8], p: &[u8]) -> (r: bool)
    ensures
        r == is_suffix(p@, a@),
{
    if p.len() > a.len() {
        return false;
    }
    let off: usize = a.len() - p.len();
    let mut i: usize = 0;
    while i < p.len()
        invariant
            i <= p.len(),
            p.len() <= a.len(),
            off == a.len() - p.len(),
            a@.subrange(off as int, off + i) == p@.subrange(0, i as int),
        decreases p.len() - i,
    {
        if a[off + i] != p[i] {
            assert(a@.subrange(off as int, a.len() as int)[i as int] != p@[i as int]);
            return false;
        }
        assert(a@.subrange(off as int, off + i + 1) == a@.subrange(off as int, off + i).push(a@[off + i]));
        assert(p@.subrange(0, i + 1) == p@.subrange(0, i as int).push(p@[i as int]));
        i += 1;
    }
    assert(p@ == p@.subrange(0, p.len() as int));
    true
}

/// Whether `a` ends with the bytes of `s`.
pub fn ends_with_str(a: &[u8], s: &str) -> (r: bool)
    ensures
        r == is_suffix(lit(s), a@),
{
    ends_with(a, s.as_bytes())
}

/// Position of the first `b` in `a`.
pub fn find_byte(a: &[u8], b: u8) -> (r: Option<usize>)
    ensures
        match r {
            Some(i) => i as int == first_index(a@, b),
            None => first_index(a@, b) == -1,
        },
{
    let mut i: usize = 0;
    while i < a.len()
        invariant
            i <= a.len(),
            forall|k: int| 0 <= k < i ==> a@[k] != b,
        decreases a.len() - i,
    {
        if a[i] == b {
            proof {
                lemma_first_index(a@, b);
                let r = first_index(a@, b);
                assert(a@[i as int] == b);
                if r > i as int {
                    assert(a@[i as int] != b);
                }
                if 0 <= r < i as int {
                    assert(a@[r] != b);
                }
            }
            return Some(i);
        }
        i += 1;
    }
    proof {
        lemma_first_index(a@, b);
        let r = first_index(a@, b);
        if r >= 0 {
            assert(a@[r] != b);
        }
    }
    None
}

/// Position of the last `b` in `a`.
pub fn rfind_byte(a: &[u8], b: u8) -> (r: Option<usize>)
    ensures
        match r {
            Some(i) => i as int == last_index(a@, b),
            None => last_index(a@, b) == -1,
        },
{
    let mut i: usize = a.len();
    while i > 0
        invariant
            i <= a.len(),
            forall|k: int| i <= k < a.len() ==> a@[k] != b,
        decreases i,
    {
        i -= 1;
        if a[i] == b {
            proof {
                lemma_last_index(a@, b);
                let r = last_index(a@, b);
                assert(a@[i as int] == b);
                if r < i as int {
                    assert(a@[i as int] != b);
                }
                if r > i as int {
                    assert(a@[r] != b);
                }
            }
            return Some(i);
        }
    }
    proof {
        lemma_last_index(a@, b);
        let r = last_index(a@, b);
        if r >= 0 {
            assert(a@[r] != b);
        }
    }
    None
}

/// An owned copy of `a[from..to]`.
pub fn slice_bytes(a: &[u8], from: usize, to: usize) -> (r: Vec<u8>)
    requires
        from <= to <= a.len(),
    ensures
        r@ == a@.subrange(from as int, to as int),
{
    let mut r: Vec<u8> = Vec::new();
    let mut i: usize = from;
    while i < to
        invariant
            from <= i <= to,
            to <= a.len(),
            r@ == a@.subrange(from as int, i as int),
        decreases to - i,
    {
        r.push(a[i]);
        i += 1;
    }
    r
}

/// Appends `b` to `out`.
pub fn push_bytes(out: &mut Vec<u8>, b: &[u8])
    ensures
        final(out)@ == old(out)@ + b@,
{
    let mut i: usize = 0;
    while i < b.len()
        invariant
            i <= b.len(),
            out@ == old(out)@ + b@.subrange(0, i as int),
        decreases b.len() - i,
    {
        out.push(b[i]);
        i += 1;
    }
    assert(b@.subrange(0, b.len() as int) == b@);
}

/// Appends the bytes of `s` to `out`.
pub fn push_str(out: &mut Vec<u8>, s: &str)
    ensures
        final(out)@ == old(out)@ + lit(s),
{
    push_bytes(out, s.as_bytes());
}

/// `a` split at the first `b`: what stands before it and what stands after it.
pub open spec fn split_first(a: Seq<u8>, b: u8) -> Option<(Seq<u8>, Seq<u8>)> {
    if first_index(a, b) < 0 {
        None
    } else {
        Some((a.subrange(0, first_index(a, b)), a.subrange(first_index(a, b) + 1, a.len() as int)))
    }
}

/// `a` split at the last `b`: what stands before it and what stands after it.
pub open spec fn split_last(a: Seq<u8>, b: u8) -> Option<(Seq<u8>, Seq<u8>)> {
    if last_index(a, b) < 0 {
        None
    } else {
        Some((a.subrange(0, last_index(a, b)), a.subrange(last_index(a, b) + 1, a.len() as int)))
    }
}

/// `a` without the suffix `p`, or `a` itself where it does not end with `p`.
pub open spec fn without_suffix(a: Seq<u8>, p: Seq<u8>) -> Seq<u8> {
    if is_suffix(p, a) {
        a.subrange(0, a.len() - p.len())
    } else {
        a
    }
}

/// `a` without the prefix `p`, or `a` itself where it does not begin with `p`.
pub open spec fn without_prefix(a: Seq<u8>, p: Seq<u8>) -> Seq<u8> {
    if is_prefix(p, a) {
        a.subrange(p.len() as int, a.len() as int)
    } else {
        a
    }
}

/// Splits `a` at the first `b`.
pub fn split_once(a: &[u8], b: u8) -> (r: Option<(Vec<u8>, Vec<u8>)>)
    ensures
        match r {
            Some((x, y)) => split_first(a@, b) == Some((x@, y@)),
            None => split_first(a@, b) is None,
        },
{
    proof {
        lemma_first_index(a@, b);
    }
    match find_byte(a, b) {
        Some(i) => {
            assert(i < a.len());
            Some((slice_bytes(a, 0, i), slice_bytes(a, i + 1, a.len())))
        },
        None => None,
    }
}

/// Splits `a` at the last `b`.
pub fn rsplit_once(a: &[u8], b: u8) -> (r: Option<(Vec<u8>, Vec<u8>)>)
    ensures
        match r {
            Some((x, y)) => split_last(a@, b) == Some((x@, y@)),
            None => split_last(a@, b) is None,
        },
{
    proof {
        lemma_last_index(a@, b);
    }
    match rfind_byte(a, b) {
        Some(i) => {
            assert(i < a.len());
            Some((slice_bytes(a, 0, i), slice_bytes(a, i + 1, a.len())))
        },
        None => None,
    }
}

/// Drops the suffix `s` from `a` where `a` ends with it.
pub fn strip_suffix_str(a: Vec<u8>, s: &str) -> (r: Vec<u8>)
    ensures
        r@ == without_suffix(a@, lit(s)),
{
    if ends_with_str(a.as_slice(), s) {
        let n = s.as_bytes().len();
        slice_bytes(a.as_slice(), 0, a.len() - n)
    } else {
        a
    }
}

/// Drops the prefix `s` from `a` where `a` begins with it.
pub fn strip_prefix_str(a: Vec<u8>, s: &str) -> (r: Vec<u8>)
    ensures
        r@ == without_prefix(a@, lit(s)),
{
    if starts_with_str(a.as_slice(), s) {
        let n = s.as_bytes().len();
        slice_bytes(a.as_slice(), n, a.len())
    } else {
        a
    }
}

/// Whether `b` is ASCII white space.
pub open spec fn is_space(b: u8) -> bool {
    b == 0x20u8 || b == 0x09u8 || b == 0x0au8 || b == 0x0cu8 || b == 0x0du8
}

/// Number of leading white-space bytes.
pub open spec fn leading_space(a: Seq<u8>) -> int
    decreases a.len(),
{
    if a.len() > 0 && is_space(a[0]) {
        1 + leading_space(a.skip(1))
    } else {
        0
    }
}

/// Number of trailing white-space bytes.
pub open spec fn trailing_space(a: Seq<u8>) -> int
    decreases a.len(),
{
    if a.len() > 0 && is_space(a.last()) {
        1 + trailing_space(a.drop_last())
    } else {
        0
    }
}

/// `a` without leading and trailing ASCII white space.
pub open spec fn trimmed(a: Seq<u8>) -> Seq<u8> {
    let rest = a.skip(leading_space(a));
    rest.take(rest.len() - trailing_space(rest))
}

/// Trims ASCII white space at both ends.
pub fn trim(a: &[u8]) -> (r: Vec<u8>)
    ensures
        r@ == trimmed(a@),
{
    let mut i: usize = 0;
    assert(a@.skip(0) == a@);
    while i < a.len() && is_space_byte(a[i])
        invariant
            i <= a.len(),
            leading_space(a@) == i + leading_space(a@.skip(i as int)),
        decreases a.len() - i,
    {
        assert(a@.skip(i as int).skip(1) == a@.skip(i + 1));
        i += 1;
    }
    let ghost rest = a@.skip(i as int);
    assert(leading_space(a@) == i) by {
        if i < a.len() {
            assert(rest[0] == a@[i as int]);
        }
    }
    let mut j: usize = a.len();
    assert(rest.take(rest.len() as int) == rest);
    while j > i && is_space_byte(a[j - 1])
        invariant
            i <= j <= a.len(),
            rest == a@.skip(i as int),
            trailing_space(rest) == (a.len() - j) + trailing_space(rest.take(j - i)),
        decreases j,
    {
        assert(rest.take(j - i).last() == a@[j - 1]);
        assert(rest.take(j - i).drop_last() == rest.take(j - 1 - i));
        j -= 1;
    }
    assert(trailing_space(rest) == a.len() - j) by {
        if j > i {
            assert(rest.take(j - i).last() == a@[j - 1]);
        }
    }
    let r = slice_bytes(a, i, j);
    assert(r@ =~= trimmed(a@));
    r
}

/// Whether `b` is ASCII white space.
pub fn is_space_byte(b: u8) -> (r: bool)
    ensures
        r == is_space(b),
{
    b == 0x20u8 || b == 0x09u8 || b == 0x0au8 || b == 0x0cu8 || b == 0x0du8
}

/// The pieces of `a` between occurrences of `b`; always at least one piece.
pub open spec fn pieces(a: Seq<u8>, b: u8) -> Seq<Seq<u8>>
    decreases a.len(),
{
    if first_index(a, b) < 0 || first_index(a, b) >= a.len() {
        seq![a]
    } else {
        seq![a.subrange(0, first_index(a, b))] + pieces(a.skip(first_index(a, b) + 1), b)
    }
}

/// The byte strings that a vector of byte vectors holds.
pub open spec fn views(v: Seq<Vec<u8>>) -> Seq<Seq<u8>> {
    Seq::new(v.len(), |i: int| v[i]@)
}

/// Splits `a` at every `b`.
pub fn split(a: &[u8], b: u8) -> (r: Vec<Vec<u8>>)
    ensures
        views(r@) == pieces(a@, b),
{
    let mut out: Vec<Vec<u8>> = Vec::new();
    let mut start: usize = 0;
    let mut i: usize = 0;
    assert(a@.skip(0) == a@);
    assert(views(out@) =~= Seq::<Seq<u8>>::empty());
    while i < a.len()
        invariant
            start <= i <= a.len(),
            forall|k: int| start <= k < i ==> a@[k] != b,
            views(out@) + pieces(a@.skip(start as int), b) == pieces(a@, b),
        decreases a.len() - i,
    {
        if a[i] == b {
            let ghost rest = a@.skip(start as int);
            proof {
                lemma_first_index(rest, b);
                let f = first_index(rest, b);
                assert(rest[i - start] == b);
                if f < 0 || f > i - start {
                    assert(rest[i - start] != b);
                }
                if 0 <= f < i - start {
                    assert(rest[f] == a@[start + f]);
                }
                assert(f == i - start);
                assert(rest.subrange(0, f) == a@.subrange(start as int, i as int));
                assert(rest.skip(f + 1) == a@.skip(i + 1));
            }
            let piece = slice_bytes(a, start, i);
            let ghost before = views(out@);
            out.push(piece);
            assert(views(out@) =~= before + seq![piece@]);
            start = i + 1;
        }
        i += 1;
    }
    let ghost rest = a@.skip(start as int);
    proof {
        lemma_first_index(rest, b);
        let f = first_index(rest, b);
        if f >= 0 {
            assert(rest[f] == a@[start + f]);
        }
        assert(rest == a@.subrange(start as int, a.len() as int));
    }
    let piece = slice_bytes(a, start, a.len());
    let ghost before = views(out@);
    out.push(piece);
    assert(views(out@) =~= before + seq![piece@]);
    out
}

/// The number that the decimal digits `a` denote.
pub open spec fn decimal(a: Seq<u8>) -> nat
    decreases a.len(),
{
    if a.len() == 0 {
        0
    } else {
        decimal(a.drop_last()) * 10 + (a.last() - 0x30u8) as nat
    }
}

/// `a` is a non-empty run of decimal digits.
pub open spec fn is_digits(a: Seq<u8>) -> bool {
    a.len() > 0 && forall|k: int| 0 <= k < a.len() ==> 0x30u8 <= #[trigger] a[k] <= 0x39u8
}

/// Reads a non-empty run of decimal digits whose value is at most `max`.
pub fn parse_decimal(a: &[u8], max: u64) -> (r: Option<u64>)
    ensures
        match r {
            Some(n) => is_digits(a@) && n == decimal(a@) && n <= max,
            None => !is_digits(a@) || decimal(a@) > max,
        },
{
    if a.len() == 0 {
        return None;
    }
    let mut acc: u64 = 0;
    let mut i: usize = 0;
    assert(a@.take(0) =~= Seq::<u8>::empty());
    while i < a.len()
        invariant
            i <= a.len(),
            acc == decimal(a@.take(i as int)),
            acc <= max,
            forall|k: int| 0 <= k < i ==> 0x30u8 <= #[trigger] a@[k] <= 0x39u8,
        decreases a.len() - i,
    {
        let b = a[i];
        if b < 0x30u8 || b > 0x39u8 {
            return None;
        }
        let d: u64 = (b - 0x30u8) as u64;
        proof {
            assert(a@.take(i + 1).drop_last() == a@.take(i as int));
            assert(a@.take(i + 1).last() == b);
            if is_digits(a@) {
                lemma_decimal_grows(a@, i + 1);
            }
        }
        if d > max || acc > (max - d) / 10 {
            assert(acc * 10 + d > max);
            return None;
        }
        acc = acc * 10 + d;
        i += 1;
    }
    assert(a@.take(a.len() as int) == a@);
    Some(acc)
}

/// Longer prefixes of a digit string denote larger numbers.
pub proof fn lemma_decimal_grows(a: Seq<u8>, k: int)
    requires
        0 <= k <= a.len(),
        forall|j: int| k <= j < a.len() ==> 0x30u8 <= #[trigger] a[j],
    ensures
        decimal(a.take(k)) <= decimal(a),
    decreases a.len() - k,
{
    if k < a.len() {
        lemma_decimal_grows(a, k + 1);
        assert(a.take(k + 1).drop_last() == a.take(k));
    } else {
        assert(a.take(k) == a);
    }
}

/// The view of an optional byte vector.
pub open spec fn opt_bytes(o: Option<Vec<u8>>) -> Option<Seq<u8>> {
    match o {
        Some(v) => Some(v@),
        None => None,
    }
}

/// An owned copy of an optional byte vector.
pub fn copy_opt(o: &Option<Vec<u8>>) -> (r: Option<Vec<u8>>)
    ensures
        opt_bytes(r) == opt_bytes(*o),
{
    match o {
        Some(v) => Some(copy_bytes(v.as_slice())),
        None => None,
    }
}

/// An owned copy of a vector of byte vectors.
pub fn copy_list(v: &Vec<Vec<u8>>) -> (r: Vec<Vec<u8>>)
    ensures
        views(r@) == views(v@),
{
    let mut r: Vec<Vec<u8>> = Vec::new();
    let mut i: usize = 0;
    while i < v.len()
        invariant
            i <= v.len(),
            r@.len() == i,
            forall|k: int| 0 <= k < i ==> (#[trigger] r@[k])@ == v@[k]@,
        decreases v.len() - i,
    {
        r.push(copy_bytes(v[i].as_slice()));
        i += 1;
    }
    assert(views(r@) =~= views(v@));
    r
}

/// The decimal digits of `n`.
pub open spec fn digits(n: nat) -> Seq<u8>
    decreases n,
{
    if n < 10 {
        seq![(0x30 + n) as u8]
    } else {
        digits(n / 10).push((0x30 + n % 10) as u8)
    }
}

/// Appends the decimal digits of `n` to `out`.
pub fn push_decimal(out: &mut Vec<u8>, n: usize)
    ensures
        final(out)@ == old(out)@ + digits(n as nat),
    decreases n,
{
    if n >= 10 {
        push_decimal(out, n / 10);
    }
    out.push(0x30u8 + (n % 10) as u8);
    assert(out@ =~= old(out)@ + digits(n as nat));
}

/// The integer that `a` denotes: decimal digits behind an optional sign.
pub open spec fn integer(a: Seq<u8>) -> Option<int> {
    if a.len() > 0 && a[0] == 0x2du8 {
        if is_digits(a.skip(1)) {
            Some(-(decimal(a.skip(1)) as int))
        } else {
            None
        }
    } else if a.len() > 0 && a[0] == 0x2bu8 {
        if is_digits(a.skip(1)) {
            Some(decimal(a.skip(1)) as int)
        } else {
            None
        }
    } else if is_digits(a) {
        Some(decimal(a) as int)
    } else {
        None
    }
}

/// Reads an integer; `None` where `a` denotes none or one that does not fit in `i64`.
pub fn parse_integer(a: &[u8]) -> (r: Option<i64>)
    ensures
        match r {
            Some(n) => integer(a@) == Some(n as int),
            None => integer(a@) is None || integer(a@).unwrap() < i64::MIN || integer(a@).unwrap()
                > i64::MAX,
        },
{
    if a.len() > 0 && a[0] == 0x2du8 {
        let rest = slice_bytes(a, 1, a.len());
        assert(rest@ == a@.skip(1));
        match parse_decimal(rest.as_slice(), 0x8000_0000_0000_0000u64) {
            Some(n) => {
                if n == 0x8000_0000_0000_0000u64 {
                    Some(i64::MIN)
                } else {
                    Some(-(n as i64))
                }
            },
            None => None,
        }
    } else if a.len() > 0 && a[0] == 0x2bu8 {
        let rest = slice_bytes(a, 1, a.len());
        assert(rest@ == a@.skip(1));
        match parse_decimal(rest.as_slice(), 0x7fff_ffff_ffff_ffffu64) {
            Some(n) => Some(n as i64),
            None => None,
        }
    } else {
        match parse_decimal(a, 0x7fff_ffff_ffff_ffffu64) {
            Some(n) => Some(n as i64),
            None => None,
        }
    }
}

/// The integer that `a` denotes, where it fits in 64 bits.
pub open spec fn integer64(a: Seq<u8>) -> Option<i64> {
    match integer(a) {
        Some(n) => if i64::MIN <= n <= i64::MAX {
            Some(n as i64)
        } else {
            None
        },
        None => None,
    }
}

/// Reads an integer of 64 bits.
pub fn parse_i64(a: &[u8]) -> (r: Option<i64>)
    ensures
        r == integer64(a@),
{
    parse_integer(a)
}

} // verus!
