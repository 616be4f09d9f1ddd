//! The byte-level grammar of serialized markup: escaping, tags, and the
//! element classes that change how content is written.

use vstd::prelude::*;
use crate::text::{eq_str, lit};

verus! {

/// `&amp;`
pub open spec fn amp() -> Seq<u8> {
    seq![0x26u8, 0x61u8, 0x6du8, 0x70u8, 0x3bu8]
}

/// `&lt;`
pub open spec fn lt() -> Seq<u8> {
    seq![0x26u8, 0x6cu8, 0x74u8, 0x3bu8]
}

/// `&gt;`
pub open spec fn gt() -> Seq<u8> {
    seq![0x26u8, 0x67u8, 0x74u8, 0x3bu8]
}

/// `&quot;`
pub open spec fn quot() -> Seq<u8> {
    seq![0x26u8, 0x71u8, 0x75u8, 0x6fu8, 0x74u8, 0x3bu8]
}

/// `&nbsp;`
pub open spec fn nbsp() -> Seq<u8> {
    seq![0x26u8, 0x6eu8, 0x62u8, 0x73u8, 0x70u8, 0x3bu8]
}

/// Number of input bytes consumed by the escape step at the head of `s`
/// (two for a no-break space, which is the byte pair `C2 A0`; one otherwise).
pub open spec fn escape_step(s: Seq<u8>) -> int {
    if s.len() >= 2 && s[0] == 0xC2u8 && s[1] == 0xA0u8 { 2 } else { 1 }
}

/// What the escape step at the head of a non-empty `s` writes.
///
/// `&`, `<`, `>` and the no-break space are always replaced by their entity;
/// `"` only inside an attribute value.
pub open spec fn escape_head(s: Seq<u8>, attr: bool) -> Seq<u8> {
    if s[0] == 0x26u8 {
        amp()
    } else if s[0] == 0x3cu8 {
        lt()
    } else if s[0] == 0x3eu8 {
        gt()
    } else if attr && s[0] == 0x22u8 {
        quot()
    } else if escape_step(s) == 2 {
        nbsp()
    } else {
        seq![s[0]]
    }
}

/// The escaped form of `s`, as text content (`attr == false`) or as an
/// attribute value (`attr == true`).
pub open spec fn escaped(s: Seq<u8>, attr: bool) -> Seq<u8>
    decreases s.len(),
{
    if s.len() == 0 {
        Seq::<u8>::empty()
    } else {
        escape_head(s, attr) + escaped(s.skip(escape_step(s)), attr)
    }
}

/// Appending bytes never shortens the escaped form.
pub proof fn lemma_escaped_grows(a: Seq<u8>, b: Seq<u8>, attr: bool)
    ensures
        escaped(a + b, attr).len() >= escaped(a, attr).len(),
    decreases a.len(),
{
    let s = a + b;
    if a.len() > 0 {
        assert(s[0] == a[0]);
        if a.len() >= 2 {
            assert(s[1] == a[1]);
        }
        if escape_step(s) == escape_step(a) {
            let k = escape_step(a);
            assert(s.skip(k) =~= a.skip(k) + b);
            lemma_escaped_grows(a.skip(k), b, attr);
        } else {
            assert(a.skip(1).len() == 0);
            assert(escaped(a.skip(1), attr).len() == 0);
        }
    }
}

/// Length of the escaped form of `text`; `None` when it does not fit in `usize`.
pub fn escaped_len(text: &[u8], attr: bool) -> (r: Option<usize>)
    ensures
        match r {
            Some(n) => n == escaped(text@, attr).len(),
            None => escaped(text@, attr).len() > usize::MAX,
        },
{
    let mut acc: usize = 0;
    let mut i: usize = 0;
    assert(text@.skip(0) == text@);
    while i < text.len()
        invariant
            i <= text.len(),
            acc + escaped(text@.skip(i as int), attr).len() == escaped(text@, attr).len(),
        decreases text.len() - i,
    {
        let ghost rest = text@.skip(i as int);
        assert(rest.len() > 0 && rest[0] == text@[i as int]);
        let b: u8 = text[i];
        let two: bool = b == 0xC2u8 && i + 1 < text.len() && text[i + 1] == 0xA0u8;
        proof {
            if rest.len() >= 2 {
                assert(rest[1] == text@[i + 1]);
            }
            assert(two == (escape_step(rest) == 2));
            assert(rest.skip(escape_step(rest)) == text@.skip(i + escape_step(rest)));
        }
        let w: usize = if b == 0x26u8 {
            5
        } else if b == 0x3cu8 || b == 0x3eu8 {
            4
        } else if attr && b == 0x22u8 {
            6
        } else if two {
            6
        } else {
            1
        };
        assert(w == escape_head(rest, attr).len());
        if acc > usize::MAX - w {
            return None;
        }
        acc = acc + w;
        i = if two { i + 2 } else { i + 1 };
    }
    Some(acc)
}

/// Appends the escaped form of `text` to `out`.
pub fn escape_into(out: &mut Vec<u8>, text: &[u8], attr: bool)
    ensures
        final(out)@ == old(out)@ + escaped(text@, attr),
{
    let mut i: usize = 0;
    assert(text@.skip(0) == text@);
    while i < text.len()
        invariant
            i <= text.len(),
            out@ + escaped(text@.skip(i as int), attr) == old(out)@ + escaped(text@, attr),
        decreases text.len() - i,
    {
        let ghost rest = text@.skip(i as int);
        let ghost before = out@;
        assert(rest.len() > 0 && rest[0] == text@[i as int]);
        let b: u8 = text[i];
        let two: bool = b == 0xC2u8 && i + 1 < text.len() && text[i + 1] == 0xA0u8;
        proof {
            if rest.len() >= 2 {
                assert(rest[1] == text@[i + 1]);
            }
            assert(two == (escape_step(rest) == 2));
            assert(rest.skip(escape_step(rest)) == text@.skip(i + escape_step(rest)));
        }
        if b == 0x26u8 {
            out.push(0x26u8); out.push(0x61u8); out.push(0x6du8); out.push(0x70u8); out.push(0x3bu8);
        } else if b == 0x3cu8 {
            out.push(0x26u8); out.push(0x6cu8); out.push(0x74u8); out.push(0x3bu8);
        } else if b == 0x3eu8 {
            out.push(0x26u8); out.push(0x67u8); out.push(0x74u8); out.push(0x3bu8);
        } else if attr && b == 0x22u8 {
            out.push(0x26u8); out.push(0x71u8); out.push(0x75u8); out.push(0x6fu8); out.push(0x74u8); out.push(0x3bu8);
        } else if two {
            out.push(0x26u8); out.push(0x6eu8); out.push(0x62u8); out.push(0x73u8); out.push(0x70u8); out.push(0x3bu8);
        } else {
            out.push(b);
        }
        assert(out@ == before + escape_head(rest, attr));
        assert(out@ + escaped(rest.skip(escape_step(rest)), attr) == before + escaped(rest, attr));
        i = if two { i + 2 } else { i + 1 };
    }
    assert(text@.skip(text.len() as int).len() == 0);
}

/// Elements of the HTML namespace that are written without content and
/// without an end tag.
pub open spec fn is_void_name(name: Seq<u8>) -> bool {
    ||| name == lit("area")
    ||| name == lit("base")
    ||| name == lit("basefont")
    ||| name == lit("bgsound")
    ||| name == lit("br")
    ||| name == lit("col")
    ||| name == lit("embed")
    ||| name == lit("frame")
    ||| name == lit("hr")
    ||| name == lit("img")
    ||| name == lit("input")
    ||| name == lit("keygen")
    ||| name == lit("link")
    ||| name == lit("meta")
    ||| name == lit("param")
    ||| name == lit("source")
    ||| name == lit("track")
    ||| name == lit("wbr")
}

/// Elements of the HTML namespace whose text content is written literally.
pub open spec fn is_raw_text_name(name: Seq<u8>) -> bool {
    ||| name == lit("style")
    ||| name == lit("script")
    ||| name == lit("xmp")
    ||| name == lit("iframe")
    ||| name == lit("noembed")
    ||| name == lit("noframes")
    ||| name == lit("plaintext")
    ||| name == lit("noscript")
}

/// Whether an element is void: only names of the HTML namespace count.
pub open spec fn is_void(name: Seq<u8>, html: bool) -> bool {
    html && is_void_name(name)
}

/// Whether an element holds raw text: only names of the HTML namespace count.
pub open spec fn is_raw_text(name: Seq<u8>, html: bool) -> bool {
    html && is_raw_text_name(name)
}

/// Whether an element is written without content and without an end tag.
pub fn void_element(name: &[u8], html: bool) -> (r: bool)
    ensures
        r == is_void(name@, html),
{
    html && (eq_str(name, "area") || eq_str(name, "base") || eq_str(name, "basefont") || eq_str(
        name,
        "bgsound",
    ) || eq_str(name, "br") || eq_str(name, "col") || eq_str(name, "embed") || eq_str(name, "frame")
        || eq_str(name, "hr") || eq_str(name, "img") || eq_str(name, "input") || eq_str(
        name,
        "keygen",
    ) || eq_str(name, "link") || eq_str(name, "meta") || eq_str(name, "param") || eq_str(
        name,
        "source",
    ) || eq_str(name, "track") || eq_str(name, "wbr"))
}

/// Whether the text inside an element is written literally.
pub fn raw_text_element(name: &[u8], html: bool) -> (r: bool)
    ensures
        r == is_raw_text(name@, html),
{
    html && (eq_str(name, "style") || eq_str(name, "script") || eq_str(name, "xmp") || eq_str(
        name,
        "iframe",
    ) || eq_str(name, "noembed") || eq_str(name, "noframes") || eq_str(name, "plaintext")
        || eq_str(name, "noscript"))
}

/// One serialized attribute: a space, the name, `="`, the escaped value, `"`.
pub open spec fn attr_markup(name: Seq<u8>, value: Seq<u8>) -> Seq<u8> {
    seq![0x20u8] + name + seq![0x3du8, 0x22u8] + escaped(value, true) + seq![0x22u8]
}

/// All attributes of an element, serialized in order.
pub open spec fn attrs_markup(attrs: Seq<(Seq<u8>, Seq<u8>)>) -> Seq<u8>
    decreases attrs.len(),
{
    if attrs.len() == 0 {
        Seq::<u8>::empty()
    } else {
        attrs_markup(attrs.drop_last()) + attr_markup(attrs.last().0, attrs.last().1)
    }
}

/// `<name attrs>`
pub open spec fn open_tag(name: Seq<u8>, attrs: Seq<(Seq<u8>, Seq<u8>)>) -> Seq<u8> {
    seq![0x3cu8] + name + attrs_markup(attrs) + seq![0x3eu8]
}

/// `</name>`
pub open spec fn close_tag(name: Seq<u8>) -> Seq<u8> {
    seq![0x3cu8, 0x2fu8] + name + seq![0x3eu8]
}

/// `<!--text-->`
pub open spec fn comment_markup(text: Seq<u8>) -> Seq<u8> {
    seq![0x3cu8, 0x21u8, 0x2du8, 0x2du8] + text + seq![0x2du8, 0x2du8, 0x3eu8]
}

/// `<!DOCTYPE name>`
pub open spec fn doctype_markup(name: Seq<u8>) -> Seq<u8> {
    seq![0x3cu8, 0x21u8, 0x44u8, 0x4fu8, 0x43u8, 0x54u8, 0x59u8, 0x50u8, 0x45u8, 0x20u8] + name
        + seq![0x3eu8]
}

/// `<?target data>`
pub open spec fn pi_markup(target: Seq<u8>, data: Seq<u8>) -> Seq<u8> {
    seq![0x3cu8, 0x3fu8] + target + seq![0x20u8] + data + seq![0x3eu8]
}

/// Text content as written inside its parent: literal in a raw-text element, escaped elsewhere.
pub open spec fn text_markup(text: Seq<u8>, raw: bool) -> Seq<u8> {
    if raw { text } else { escaped(text, false) }
}

} // verus!
