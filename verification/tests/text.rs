use git_zoxide::text::{
    chars_of, contains_chars, decimal_chars, join_chars, lt_chars, parse_decimal, replace_chars,
    same_text, sort_texts, split_chars_on, starts_with_chars, trim_chars, trim_end_chars,
    trim_space_chars, trim_start_space_chars,
};
use git_zoxide::util::{option_arg, split_name};

fn c(s: &str) -> Vec<char> {
    s.chars().collect()
}

fn s(v: &[char]) -> String {
    v.iter().collect()
}

#[test]
fn split_name_at_the_last_separator() {
    assert_eq!(split_name("a/b/c"), ("a/b".to_string(), "c".to_string()));
    assert_eq!(split_name("group/base"), ("group".to_string(), "base".to_string()));
    assert_eq!(split_name("c"), (String::new(), "c".to_string()));
    assert_eq!(split_name(""), (String::new(), String::new()));
    assert_eq!(split_name("a/"), ("a".to_string(), String::new()));
    assert_eq!(split_name("/a"), (String::new(), "a".to_string()));
    assert_eq!(split_name("gr\u{fc}n/\u{4e2d}\u{6587}"), ("gr\u{fc}n".to_string(), "\u{4e2d}\u{6587}".to_string()));
}

#[test]
fn split_name_agrees_with_split_and_join() {
    for name in ["a/b/c", "x", "", "/", "//", "a//b", "a/b/"] {
        let items: Vec<&str> = name.split('/').collect();
        let base = items[items.len() - 1].to_string();
        let group = items[..items.len() - 1].join("/");
        assert_eq!(split_name(name), (group, base), "name {name:?}");
    }
}

#[test]
fn option_arg_is_the_first_argument() {
    assert_eq!(option_arg(&vec![]), None);
    assert_eq!(option_arg(&vec!["a".to_string(), "b".to_string()]), Some("a"));
}

#[test]
fn chars_of_keeps_every_character() {
    assert_eq!(chars_of("a\u{e9}\u{1f600}"), vec!['a', '\u{e9}', '\u{1f600}']);
    assert!(same_text("abc", "abc"));
    assert!(!same_text("abc", "abd"));
    assert!(!same_text("abc", "ab"));
}

#[test]
fn contains_is_substring_containment() {
    for (hay, needle) in [("hello", "ell"), ("hello", ""), ("", ""), ("hello", "hello"), ("hello", "lo"), ("hello", "hellos"), ("hello", "x"), ("", "a"), ("aab", "ab")] {
        assert_eq!(contains_chars(&c(hay), &c(needle)), hay.contains(needle), "{hay:?} {needle:?}");
        assert_eq!(starts_with_chars(&c(hay), &c(needle)), hay.starts_with(needle));
    }
}

#[test]
fn trims_agree_with_std() {
    for text in ["", "/", "//a//", "a", "/a/b/", "a///"] {
        assert_eq!(s(&trim_chars(&c(text), '/')), text.trim_matches('/'));
        assert_eq!(s(&trim_end_chars(&c(text), '/')), text.trim_end_matches('/'));
    }
    for text in ["", " ", " a ", "\t\na b\r\n", "\u{a0}x\u{3000}", "\u{200b}x", "\u{85}y\u{2028}", "\u{1680}z\u{205f}"] {
        assert_eq!(s(&trim_space_chars(&c(text))), text.trim(), "{text:?}");
        assert_eq!(s(&trim_start_space_chars(&c(text))), text.trim_start(), "{text:?}");
    }
}

#[test]
fn white_space_is_that_of_std() {
    for code in 0u32..0x3100 {
        if let Some(ch) = char::from_u32(code) {
            assert_eq!(git_zoxide::text::is_space_char(ch), ch.is_whitespace(), "U+{code:04X}");
        }
    }
}

#[test]
fn split_and_join_agree_with_std() {
    for text in ["", "a", "a\nb", "a\nb\n", "\n", "\n\n", "a\n\nb"] {
        let parts: Vec<String> = split_chars_on(&c(text), '\n').iter().map(|p| s(p)).collect();
        let expected: Vec<&str> = text.split('\n').collect();
        assert_eq!(parts, expected, "{text:?}");
        let joined = join_chars(&split_chars_on(&c(text), '\n'), &c(", "));
        assert_eq!(s(&joined), expected.join(", "));
    }
    assert_eq!(s(&join_chars(&vec![], &c(","))), "");
}

#[test]
fn replace_agrees_with_std() {
    for (text, from, to) in [("a\nb\nc", "\n", ";"), ("aaa", "aa", "b"), ("abc", "abc", ""), ("abc", "x", "y"), ("", "a", "b"), ("{{A}}{{A}}", "{{A}}", "{{A}}x"), ("ab", "abc", "z"), ("x\\ty", "\\t", "\t")] {
        assert_eq!(s(&replace_chars(&c(text), &c(from), &c(to))), text.replace(from, to), "{text:?}");
    }
    assert_eq!(s(&replace_chars(&c("abc"), &c(""), &c("x"))), "abc");
}

#[test]
fn decimal_digits() {
    for n in [0u64, 1, 9, 10, 11, 99, 100, 12345, u64::MAX] {
        assert_eq!(s(&decimal_chars(n)), n.to_string());
        assert_eq!(parse_decimal(&c(&n.to_string()), u64::MAX), Some(n));
    }
    assert_eq!(parse_decimal(&c("007"), 10), Some(7));
    assert_eq!(parse_decimal(&c("11"), 10), None);
    assert_eq!(parse_decimal(&c("10"), 10), Some(10));
    assert_eq!(parse_decimal(&c(""), 10), None);
    assert_eq!(parse_decimal(&c("1a"), 10), None);
    assert_eq!(parse_decimal(&c("+1"), 10), None);
    assert_eq!(parse_decimal(&c("18446744073709551616"), u64::MAX), None);
    assert_eq!(parse_decimal(&c("99999999999999999999999"), u64::MAX), None);
    assert_eq!(parse_decimal(&c("\u{661}"), 10), None);
}

#[test]
fn dictionary_order_is_that_of_std() {
    let words = ["", "a", "A", "ab", "b", "\u{e9}", "z", "aa", "B", "\u{4e2d}"];
    for x in words {
        for y in words {
            assert_eq!(lt_chars(&c(x), &c(y)), x < y, "{x:?} {y:?}");
        }
    }
    let sorted: Vec<String> = sort_texts(&words.iter().map(|w| c(w)).collect()).iter().map(|w| s(w)).collect();
    let mut expected: Vec<&str> = words.to_vec();
    expected.sort();
    assert_eq!(sorted, expected);
}
