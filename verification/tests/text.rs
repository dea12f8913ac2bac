use demovid::names::{eq_ignore_ascii_case, has_extension_ignore_case, lex_le_exec};
use demovid::text::{contains, decimal_string, join, replace_all_str, str_eq};

#[test]
fn decimal_notation() {
    assert_eq!(decimal_string(0), "0");
    assert_eq!(decimal_string(7), "7");
    assert_eq!(decimal_string(10), "10");
    assert_eq!(decimal_string(1280), "1280");
}

#[test]
fn substring_search() {
    assert!(contains("abcabd", "abd"));
    assert!(contains("abc", ""));
    assert!(!contains("ab", "abc"));
    assert!(!contains("aXbc", "abc"));
}

#[test]
fn equality_and_case() {
    assert!(str_eq("video", "video"));
    assert!(!str_eq("video", "videos"));
    assert!(eq_ignore_ascii_case(b"MP4", b"mp4"));
    assert!(!eq_ignore_ascii_case(b"mp3", b"mp4"));
    assert!(!eq_ignore_ascii_case("É".as_bytes(), "é".as_bytes()));
}

#[test]
fn replacement() {
    assert_eq!(replace_all_str("aaa", "aa", "b"), "ba");
    assert_eq!(replace_all_str("x{{slug}}y", "{{slug}}", ""), "xy");
}

#[test]
fn ordering() {
    assert!(lex_le_exec(b"a", b"b"));
    assert!(lex_le_exec(b"a", b"ab"));
    assert!(!lex_le_exec(b"ab", b"a"));
    assert!(lex_le_exec(b"", b""));
    assert!(lex_le_exec(b"B", b"a"));
}

#[test]
fn extensions() {
    assert!(has_extension_ignore_case(b"a.tar.MP4", b"mp4"));
    assert!(!has_extension_ignore_case(b".mp4", b"mp4"));
    assert!(has_extension_ignore_case(b"..mp4", b"mp4"));
    assert!(!has_extension_ignore_case(b"mp4", b"mp4"));
    assert!(has_extension_ignore_case(b"a.", b""));
    assert!(!has_extension_ignore_case(b"..", b""));
}

#[test]
fn joining() {
    let parts: Vec<String> = vec!["a".into(), "b".into(), "c".into()];
    assert_eq!(join(&parts, ";"), "a;b;c");
    assert_eq!(join(&Vec::new(), ";"), "");
}
