use http_server::text::{
    chars_of, decimal_string, str_ends_with, str_eq, str_eq_ignore_case, str_lt,
    str_parse_decimal, str_rsplit_once, str_split, str_split_once, str_starts_with,
    str_strip_prefix, str_strip_suffix, str_trim, string_of, strs_contain, to_lowercase,
    to_uppercase,
};

#[test]
fn test_case() {
    assert_eq!(to_lowercase("Content-TYPE: \u{c4}\u{212a}[]@`{"), "content-type: \u{c4}\u{212a}[]@`{");
    assert_eq!(to_uppercase("Content-type: \u{e4}[]@`{az"), "CONTENT-TYPE: \u{e4}[]@`{AZ");
    assert_eq!(to_lowercase(""), "");
    assert!(str_eq_ignore_case("Set-Cookie", "sET-cOOKIE"));
    assert!(!str_eq_ignore_case("Set-Cookie", "Set_Cookie"));
    assert!(!str_eq_ignore_case("k", "\u{212a}"));
}

#[test]
fn test_chars() {
    assert_eq!(chars_of("a\u{fc}\u{4e16}"), vec!['a', '\u{fc}', '\u{4e16}']);
    assert_eq!(string_of(&vec!['a', 'b', 'c', 'd'], 1, 3), "bc");
    assert_eq!(string_of(&vec!['a'], 1, 1), "");
    assert!(str_eq("abc", "abc"));
    assert!(!str_eq("abc", "abd"));
    assert!(!str_eq("abc", "ab"));
}

#[test]
fn test_split() {
    assert_eq!(str_split("a,b,,c,", ','), vec!["a", "b", "", "c", ""]);
    assert_eq!(str_split("", ','), vec![""]);
    assert_eq!(str_split(",", ','), vec!["", ""]);
    assert_eq!(str_split("\u{fc},\u{e4}", ','), vec!["\u{fc}", "\u{e4}"]);
    assert_eq!(str_split_once("a:b:c", ':'), Some(("a", "b:c")));
    assert_eq!(str_split_once("abc", ':'), None);
    assert_eq!(str_split_once(":", ':'), Some(("", "")));
    assert_eq!(str_rsplit_once("a:b:c", ':'), Some(("a:b", "c")));
    assert_eq!(str_rsplit_once("abc", ':'), None);
    assert_eq!(str_rsplit_once("abc:", ':'), Some(("abc", "")));
    assert!(strs_contain(&vec!["a", "gzip"], "gzip"));
    assert!(!strs_contain(&vec!["a", "gzip "], "gzip"));
    assert!(!strs_contain(&vec![], "gzip"));
}

#[test]
fn test_trim() {
    assert_eq!(str_trim("  a b \t\r\n"), "a b");
    assert_eq!(str_trim("\u{3000}\u{a0}x\u{2003}\u{85}"), "x");
    assert_eq!(str_trim("\u{200b}x"), "\u{200b}x");
    assert_eq!(str_trim(" \t "), "");
    assert_eq!(str_trim(""), "");
    assert_eq!(str_trim("x"), "x");
    for c in ['\u{1c}', '\u{1f}', '\u{180e}', '\u{200b}', '\u{feff}'] {
        assert!(!c.is_whitespace());
        assert_eq!(str_trim(&c.to_string()).len(), c.len_utf8());
    }
    for n in 0..=0x10ffffu32 {
        if let Some(c) = char::from_u32(n) {
            let trimmed = str_trim(c.encode_utf8(&mut [0; 4])).is_empty();
            assert_eq!(trimmed, c.is_whitespace(), "{:x}", n);
        }
    }
}

#[test]
fn test_prefix_and_suffix() {
    assert!(str_starts_with("/a/b", "/a/"));
    assert!(str_starts_with("/a/b", ""));
    assert!(!str_starts_with("/a", "/a/"));
    assert!(str_ends_with("a\r\n", "\r\n"));
    assert!(!str_ends_with("a\n", "\r\n"));
    assert!(!str_ends_with("\n", "\r\n"));
    assert_eq!(str_strip_prefix("/files/a/b", "/files/"), Some("a/b"));
    assert_eq!(str_strip_prefix("/files/", "/files/"), Some(""));
    assert_eq!(str_strip_prefix("/file", "/files/"), None);
    assert_eq!(str_strip_suffix("line\r\n", "\r\n"), Some("line"));
    assert_eq!(str_strip_suffix("\r\n", "\r\n"), Some(""));
    assert_eq!(str_strip_suffix("line\r", "\r\n"), None);
}

#[test]
fn test_decimal() {
    assert_eq!(decimal_string(0), "0");
    assert_eq!(decimal_string(7), "7");
    assert_eq!(decimal_string(10), "10");
    assert_eq!(decimal_string(4096), "4096");
    assert_eq!(decimal_string(usize::MAX), usize::MAX.to_string());
    assert_eq!(str_parse_decimal("0"), Some(0));
    assert_eq!(str_parse_decimal("0042"), Some(42));
    assert_eq!(str_parse_decimal("+42"), Some(42));
    assert_eq!(str_parse_decimal("18446744073709551615"), Some(usize::MAX));
    assert_eq!(str_parse_decimal("18446744073709551616"), None);
    assert_eq!(str_parse_decimal("28446744073709551615"), None);
    assert_eq!(str_parse_decimal("184467440737095516150"), None);
    for bad in ["", "+", "-1", "++1", "1+", " 1", "1 ", "0x10", "1_000", "\u{661}", "1e3"] {
        assert_eq!(str_parse_decimal(bad), None, "{:?}", bad);
        assert!(bad.parse::<usize>().is_err());
    }
    for n in [0usize, 1, 9, 10, 99, 100, 12345, usize::MAX - 1] {
        assert_eq!(str_parse_decimal(&decimal_string(n)), Some(n));
    }
}

#[test]
fn test_order() {
    let mut words = vec!["/a/", "/a/b/", "/b/", "", "/a", "/a/b", "/\u{fc}/", "/\u{4e16}/", "/~/"];
    let sorted = {
        let mut sorted = words.clone();
        sorted.sort();
        sorted
    };
    words.sort_by(|l, r| {
        if str_lt(l, r) {
            std::cmp::Ordering::Less
        } else if str_lt(r, l) {
            std::cmp::Ordering::Greater
        } else {
            std::cmp::Ordering::Equal
        }
    });
    assert_eq!(words, sorted);
    assert!(!str_lt("a", "a"));
    assert!(str_lt("", "a"));
    assert!(!str_lt("a", ""));
}
