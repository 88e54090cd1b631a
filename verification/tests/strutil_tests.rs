use minihttp::strutil::{normalize_target, parse_u32_digits, str_eq, trim, usize_to_string};

#[test]
fn decimal_rendering_exact() {
    assert_eq!(usize_to_string(0), "0");
    assert_eq!(usize_to_string(7), "7");
    assert_eq!(usize_to_string(42), "42");
    assert_eq!(usize_to_string(1000), "1000");
    assert_eq!(usize_to_string(4294967295), "4294967295");
}

#[test]
fn decimal_parsing_exact() {
    assert_eq!(parse_u32_digits("0"), Some(0));
    assert_eq!(parse_u32_digits("5"), Some(5));
    assert_eq!(parse_u32_digits("0123"), Some(123));
    assert_eq!(parse_u32_digits("4294967295"), Some(4294967295));
}

#[test]
fn decimal_parsing_rejects() {
    assert_eq!(parse_u32_digits(""), None);
    assert_eq!(parse_u32_digits("12a"), None);
    assert_eq!(parse_u32_digits("-3"), None);
    assert_eq!(parse_u32_digits(" 5"), None);
    // one past u32::MAX
    assert_eq!(parse_u32_digits("4294967296"), None);
}

#[test]
fn trim_both_ends() {
    assert_eq!(trim("  abc\t"), "abc");
    assert_eq!(trim("abc"), "abc");
    assert_eq!(trim("   "), "");
    assert_eq!(trim(""), "");
    assert_eq!(trim("\r\ngzip\r\n"), "gzip");
}

#[test]
fn target_normalization() {
    assert_eq!(normalize_target("/files/"), "/files");
    assert_eq!(normalize_target("/files///"), "/files");
    assert_eq!(normalize_target("/"), "/");
    assert_eq!(normalize_target(""), "");
    assert_eq!(normalize_target("/a/b"), "/a/b");
}

#[test]
fn string_equality_by_characters() {
    assert!(str_eq("abc", "abc"));
    assert!(!str_eq("abc", "abd"));
    assert!(!str_eq("abc", "ab"));
    assert!(str_eq("", ""));
}
