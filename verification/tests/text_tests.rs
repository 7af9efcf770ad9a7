use mindmap::numeric::parse_u8;
use mindmap::numeric::u16_string;
use mindmap::text::join_all;
use mindmap::text::replace_all;
use mindmap::text::str_eq;

#[test]
fn replace_all_single_occurrence() {
    assert_eq!(replace_all("hello world", "world", "there"), "hello there");
}

#[test]
fn replace_all_every_occurrence() {
    assert_eq!(replace_all("a.b.a.b", "a", "xy"), "xy.b.xy.b");
}

#[test]
fn replace_all_no_occurrence() {
    assert_eq!(replace_all("hello", "zz", "yy"), "hello");
}

#[test]
fn replace_all_scans_left_to_right_without_overlap() {
    assert_eq!(replace_all("aaa", "aa", "b"), "ba");
}

#[test]
fn replace_all_empty_pattern_is_identity() {
    assert_eq!(replace_all("abc", "", "x"), "abc");
}

#[test]
fn replace_all_replacement_may_contain_pattern() {
    assert_eq!(replace_all("ab", "a", "aa"), "aab");
}

#[test]
fn replace_all_unicode_text() {
    assert_eq!(replace_all("héllo wörld", "wörld", "mondé"), "héllo mondé");
}

#[test]
fn join_all_with_separator() {
    let parts = vec![
        String::from("a"),
        String::from("b"),
        String::from("c"),
    ];
    assert_eq!(join_all(&parts, ", "), "a, b, c");
}

#[test]
fn join_all_single_and_empty() {
    assert_eq!(join_all(&vec![String::from("only")], ", "), "only");
    let none: Vec<String> = Vec::new();
    assert_eq!(join_all(&none, ", "), "");
}

#[test]
fn str_eq_compares_content() {
    assert!(str_eq("abc", "abc"));
    assert!(!str_eq("abc", "abd"));
    assert!(!str_eq("abc", "ab"));
    assert!(str_eq("", ""));
}

#[test]
fn u16_string_exact_values() {
    assert_eq!(u16_string(0), "0");
    assert_eq!(u16_string(7), "7");
    assert_eq!(u16_string(10), "10");
    assert_eq!(u16_string(8081), "8081");
    assert_eq!(u16_string(65535), "65535");
}

#[test]
fn parse_u8_accepts_octets() {
    assert_eq!(parse_u8("0"), Some(0));
    assert_eq!(parse_u8("127"), Some(127));
    assert_eq!(parse_u8("255"), Some(255));
    assert_eq!(parse_u8("007"), Some(7));
    assert_eq!(parse_u8("+12"), Some(12));
}

#[test]
fn parse_u8_rejects_non_octets() {
    assert_eq!(parse_u8(""), None);
    assert_eq!(parse_u8("+"), None);
    assert_eq!(parse_u8("256"), None);
    assert_eq!(parse_u8("999999999999999999999"), None);
    assert_eq!(parse_u8("1a"), None);
    assert_eq!(parse_u8("-1"), None);
    assert_eq!(parse_u8(" 1"), None);
}
