use qlang::strings::{
    concat_str, decimal_string, ends_with, join, replace_char, replace_crlf, split_char, starts_with,
    trim,
};
use qlang::text::{char_indices, char_len_utf16, char_len_utf8, str_equal, substring};

#[test]
fn prefixes_and_suffixes() {
    assert!(starts_with("package x", "package "));
    assert!(!starts_with("pack", "package"));
    assert!(ends_with("file.ql", ".ql"));
    assert!(!ends_with("ql", "file.ql"));
}

#[test]
fn trimming_and_splitting() {
    assert_eq!(trim("  a b \t\n"), "a b");
    assert_eq!(trim("\u{3000}x\u{a0}"), "x");
    assert_eq!(split_char("a.b..c", '.'), vec!["a", "b", "", "c"]);
    assert_eq!(split_char("", '.'), vec![""]);
    assert_eq!(replace_char("a\\b\\c", '\\', '/'), "a/b/c");
    assert_eq!(replace_crlf("x\r\ny\r"), "x\ny\r");
}

#[test]
fn numbers_and_joining() {
    assert_eq!(decimal_string(0), "0");
    assert_eq!(decimal_string(1234567890), "1234567890");
    assert_eq!(decimal_string(u64::MAX), u64::MAX.to_string());
    assert_eq!(join(&["a".to_string(), "b".to_string(), "c".to_string()], "."), "a.b.c");
    assert_eq!(join(&[], "."), "");
    assert_eq!(join(&["only".to_string()], ", "), "only");
    assert_eq!(concat_str("ab", "cd"), "abcd");
}

#[test]
fn chars_and_boundaries() {
    assert_eq!(char_len_utf8('a'), 1);
    assert_eq!(char_len_utf8('é'), 2);
    assert_eq!(char_len_utf8('€'), 3);
    assert_eq!(char_len_utf8('😀'), 4);
    assert_eq!(char_len_utf16('😀'), 2);
    assert_eq!(char_len_utf16('€'), 1);
    assert_eq!(char_indices("aé€"), vec![(0, 'a'), (1, 'é'), (3, '€')]);
    assert_eq!(substring("aé€b", 1, 6), "é€");
    assert!(str_equal("é", "é"));
    assert!(!str_equal("e", "é"));
}
