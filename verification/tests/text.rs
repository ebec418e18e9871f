use energy_harness::ident::normalize_identifier;
use energy_harness::text::{decimal_string, join, replace, split};

#[test]
fn replace_swaps_every_occurrence() {
    assert_eq!(replace("a,b,,c", ",", "."), "a.b..c");
    assert_eq!(replace("x<not counted>y", "<not counted>", "-1"), "x-1y");
    assert_eq!(replace("aaa", "aa", "b"), "ba");
    assert_eq!(replace("", "a", "b"), "");
    assert_eq!(replace("abc", "abcd", "x"), "abc");
    assert_eq!(replace("abc", "", "x"), "abc");
}

#[test]
fn replace_agrees_with_the_standard_library() {
    let cases = [
        ("literal/mod.rs", "mod.rs", ""),
        ("map.rs", ".rs", ""),
        ("ababab", "aba", "-"),
        ("1.000,5", ",", "."),
        ("héllo wörld", "ö", "oe"),
    ];
    for (text, pattern, with) in cases {
        assert_eq!(replace(text, pattern, with), text.replace(pattern, with));
    }
}

#[test]
fn split_keeps_empty_pieces() {
    assert_eq!(split("a/b", "/"), vec!["a", "b"]);
    assert_eq!(split("a/", "/"), vec!["a", ""]);
    assert_eq!(split("/a", "/"), vec!["", "a"]);
    assert_eq!(split("", "/"), vec![""]);
    assert_eq!(split("a", "/"), vec!["a"]);
    assert_eq!(split("x/src/y/src/z", "/src/"), vec!["x", "y", "z"]);
    assert_eq!(split("abc", ""), vec!["abc"]);
}

#[test]
fn split_agrees_with_the_standard_library() {
    let cases = [("a\nb\n\nc\n", "\n"), ("/src//src/", "/src/"), ("aaaa", "aa"), ("ü-ü", "-")];
    for (text, separator) in cases {
        let expected: Vec<String> = text.split(separator).map(String::from).collect();
        assert_eq!(split(text, separator), expected);
    }
}

#[test]
fn join_puts_the_separator_between() {
    let parts = vec!["a".to_string(), "b".to_string(), "c".to_string()];
    assert_eq!(join(&parts, ","), "a,b,c");
    assert_eq!(join(&parts[..1].to_vec(), ","), "a");
    assert_eq!(join(&Vec::new(), ","), "");
    assert_eq!(join(&vec!["".to_string(), "".to_string()], "::"), "::");
}

#[test]
fn decimal_string_writes_numbers() {
    assert_eq!(decimal_string(0), "0");
    assert_eq!(decimal_string(7), "7");
    assert_eq!(decimal_string(10), "10");
    assert_eq!(decimal_string(300), "300");
    assert_eq!(decimal_string(u64::MAX), "18446744073709551615");
}

#[test]
fn normalize_identifier_writes_underscores() {
    assert_eq!(normalize_identifier("a b/c-d"), "a_b_c_d");
    assert_eq!(normalize_identifier("plain_name"), "plain_name");
    assert_eq!(normalize_identifier(""), "");
    assert_eq!(normalize_identifier("rust-prometheus"), "rust_prometheus");
}

#[test]
fn normalize_identifier_is_idempotent() {
    for name in ["a b/c-d", "x", "- /", "bench group/sub-case 1", "déjà-vu"] {
        let once = normalize_identifier(name);
        let twice = normalize_identifier(&once);
        assert_eq!(once, twice);
        assert!(!once.contains(' ') && !once.contains('/') && !once.contains('-'));
        assert_eq!(once.chars().count(), name.chars().count());
    }
}
