use shtml_extraction::markup::{escape_into, escaped_len, raw_text_element, void_element};
use shtml_extraction::text::{
    bytes_of, copy_bytes, ends_with_str, eq_bytes, eq_str, find_byte, parse_decimal, parse_i64,
    parse_integer, push_decimal, rfind_byte, rsplit_once, split, split_once, starts_with_str,
    strip_prefix_str, strip_suffix_str, trim,
};

fn escape(text: &str, attr: bool) -> String {
    let mut out = Vec::new();
    escape_into(&mut out, text.as_bytes(), attr);
    String::from_utf8(out).unwrap()
}

#[test]
fn escaping_of_text_content() {
    assert_eq!(escape("a<b>&c", false), "a&lt;b&gt;&amp;c");
    assert_eq!(escape("say \"hi\"", false), "say \"hi\"");
    assert_eq!(escape("a\u{a0}b", false), "a&nbsp;b");
    assert_eq!(escape("", false), "");
}

#[test]
fn escaping_of_attribute_values() {
    assert_eq!(escape("say \"hi\"", true), "say &quot;hi&quot;");
    assert_eq!(escape("a<b>&c", true), "a&lt;b&gt;&amp;c");
    assert_eq!(escape("http://x?a=y/archive&d=foo", true), "http://x?a=y/archive&amp;d=foo");
}

#[test]
fn escaped_length_is_the_length_of_the_escaped_form() {
    for (text, attr) in [("a<b>&c", false), ("say \"hi\"", true), ("a\u{a0}b", false), ("é\u{a0}", true), ("", false)] {
        assert_eq!(escaped_len(text.as_bytes(), attr), Some(escape(text, attr).len()));
    }
    assert_eq!(escaped_len(b"&", false), Some(5));
    assert_eq!(escaped_len(b"\"", true), Some(6));
    assert_eq!(escaped_len(b"\"", false), Some(1));
}

#[test]
fn a_lone_lead_byte_is_kept() {
    let mut out = Vec::new();
    escape_into(&mut out, &[0xC2, 0x41], false);
    assert_eq!(out, vec![0xC2, 0x41]);
    let mut out = Vec::new();
    escape_into(&mut out, &[0xC2], false);
    assert_eq!(out, vec![0xC2]);
}

#[test]
fn void_and_raw_text_elements() {
    assert!(void_element(b"br", true));
    assert!(void_element(b"link", true));
    assert!(!void_element(b"link", false));
    assert!(!void_element(b"div", true));
    assert!(raw_text_element(b"style", true));
    assert!(raw_text_element(b"noscript", true));
    assert!(!raw_text_element(b"style", false));
    assert!(!raw_text_element(b"span", true));
}

#[test]
fn comparing_and_searching() {
    assert!(eq_bytes(b"abc", b"abc"));
    assert!(!eq_bytes(b"abc", b"abd"));
    assert!(!eq_bytes(b"abc", b"ab"));
    assert!(eq_str(b"shtml:", "shtml:"));
    assert!(starts_with_str(b"shtml:term", "shtml:"));
    assert!(!starts_with_str(b"shtm", "shtml:"));
    assert!(ends_with_str(b"paper.tex", ".tex"));
    assert!(!ends_with_str(b"tex", ".tex"));
    assert_eq!(find_byte(b"a?b?c", b'?'), Some(1));
    assert_eq!(rfind_byte(b"a?b?c", b'?'), Some(3));
    assert_eq!(find_byte(b"abc", b'?'), None);
    assert_eq!(rfind_byte(b"", b'?'), None);
    assert_eq!(copy_bytes(b"xyz"), b"xyz".to_vec());
    assert_eq!(bytes_of("xyz"), b"xyz".to_vec());
}

#[test]
fn splitting() {
    assert_eq!(split_once(b"a?b?c", b'?'), Some((b"a".to_vec(), b"b?c".to_vec())));
    assert_eq!(rsplit_once(b"a?b?c", b'?'), Some((b"a?b".to_vec(), b"c".to_vec())));
    assert_eq!(split_once(b"abc", b'?'), None);
    assert_eq!(split(b"a,b,,c", b','), vec![b"a".to_vec(), b"b".to_vec(), b"".to_vec(), b"c".to_vec()]);
    assert_eq!(split(b"", b','), vec![b"".to_vec()]);
    assert_eq!(split(b",", b','), vec![b"".to_vec(), b"".to_vec()]);
    assert_eq!(strip_suffix_str(b"Mod-module".to_vec(), "-module"), b"Mod".to_vec());
    assert_eq!(strip_suffix_str(b"Mod".to_vec(), "-module"), b"Mod".to_vec());
    assert_eq!(strip_prefix_str(b"/path".to_vec(), "/"), b"path".to_vec());
}

#[test]
fn trimming() {
    assert_eq!(trim(b"  a b \n"), b"a b".to_vec());
    assert_eq!(trim(b"   "), b"".to_vec());
    assert_eq!(trim(b""), b"".to_vec());
    assert_eq!(trim(b"x"), b"x".to_vec());
}

#[test]
fn numbers() {
    assert_eq!(parse_decimal(b"0", 255), Some(0));
    assert_eq!(parse_decimal(b"255", 255), Some(255));
    assert_eq!(parse_decimal(b"256", 255), None);
    assert_eq!(parse_decimal(b"", 255), None);
    assert_eq!(parse_decimal(b"1a", 255), None);
    assert_eq!(parse_decimal(b"007", 255), Some(7));
    assert_eq!(parse_integer(b"-12"), Some(-12));
    assert_eq!(parse_integer(b"+12"), Some(12));
    assert_eq!(parse_integer(b"12"), Some(12));
    assert_eq!(parse_integer(b"-"), None);
    assert_eq!(parse_integer(b""), None);
    assert_eq!(parse_integer(b"9223372036854775807"), Some(i64::MAX));
    assert_eq!(parse_integer(b"9223372036854775808"), None);
    assert_eq!(parse_integer(b"-9223372036854775808"), Some(i64::MIN));
    assert_eq!(parse_integer(b"-9223372036854775809"), None);
    assert_eq!(parse_i64(b"1 "), None);
    let mut out = b"id_".to_vec();
    push_decimal(&mut out, 0);
    push_decimal(&mut out, 1203);
    assert_eq!(out, b"id_01203".to_vec());
}
