use ostatus::sorting::sort_texts;
use ostatus::text::{
    append_decimal, append_signed_decimal, append_str, chars_of, has_prefix, is_before,
    is_whitespace, join_texts, same_chars, split_at_char, split_whitespace, strings_of_all,
};

fn text_chars(s: &str) -> Vec<char> {
    s.chars().collect()
}

fn text_lines(items: &[&str]) -> Vec<Vec<char>> {
    items.iter().map(|s| text_chars(s)).collect()
}

#[test]
fn chars_of_keeps_every_character() {
    assert_eq!(chars_of("a-b é"), vec!['a', '-', 'b', ' ', 'é']);
    assert_eq!(chars_of(""), Vec::<char>::new());
}

#[test]
fn strings_of_all_builds_the_same_texts() {
    let strings = strings_of_all(&text_lines(&["grub2", "", "kernel-default"]));
    assert_eq!(strings, vec!["grub2".to_string(), "".to_string(), "kernel-default".to_string()]);
}

#[test]
fn is_before_is_dictionary_order() {
    assert!(is_before(&text_chars("a"), &text_chars("b")));
    assert!(is_before(&text_chars("a"), &text_chars("ab")));
    assert!(is_before(&text_chars(""), &text_chars("a")));
    assert!(is_before(&text_chars("Z"), &text_chars("a")));
    assert!(is_before(&text_chars("ab"), &text_chars("b")));
    assert!(!is_before(&text_chars("b"), &text_chars("a")));
    assert!(!is_before(&text_chars("a"), &text_chars("a")));
    assert!(!is_before(&text_chars(""), &text_chars("")));
}

#[test]
fn is_before_agrees_with_the_order_of_strings() {
    let samples = ["", "a", "A", "ab", "b", "pattern:x", "product:x", "zé", "zz", "é"];
    for a in samples {
        for b in samples {
            assert_eq!(is_before(&text_chars(a), &text_chars(b)), a < b, "{:?} {:?}", a, b);
        }
    }
}

#[test]
fn same_chars_compares_content() {
    assert!(same_chars(&text_chars("abc"), &text_chars("abc")));
    assert!(!same_chars(&text_chars("abc"), &text_chars("abd")));
    assert!(!same_chars(&text_chars("abc"), &text_chars("ab")));
}

#[test]
fn sort_texts_orders_lines() {
    let mut lines = text_lines(&["pattern:b", "a 1", "product:x", "a", "B"]);
    sort_texts(&mut lines);
    assert_eq!(lines, text_lines(&["B", "a", "a 1", "pattern:b", "product:x"]));
}

#[test]
fn sort_texts_keeps_repeated_lines() {
    let mut lines = text_lines(&["b", "a", "b", "a"]);
    sort_texts(&mut lines);
    assert_eq!(lines, text_lines(&["a", "a", "b", "b"]));
}

#[test]
fn sort_texts_agrees_with_the_standard_sort() {
    let mut names = vec!["zypper", "aaa_base", "kernel-default", "Mesa", "glibc", "", "a-b", "a b"];
    let mut lines = text_lines(&names);
    sort_texts(&mut lines);
    names.sort();
    assert_eq!(lines, text_lines(&names));
}

#[test]
fn sort_texts_of_nothing() {
    let mut lines: Vec<Vec<char>> = Vec::new();
    sort_texts(&mut lines);
    assert!(lines.is_empty());
}

#[test]
fn join_texts_puts_the_separator_between() {
    assert_eq!(join_texts(&text_lines(&["a", "b", "c"]), " "), text_chars("a b c"));
    assert_eq!(join_texts(&text_lines(&["a"]), ", "), text_chars("a"));
    assert_eq!(join_texts(&text_lines(&[]), ", "), text_chars(""));
    assert_eq!(join_texts(&text_lines(&["a", "", "b"]), "\n"), text_chars("a\n\nb"));
}

#[test]
fn is_whitespace_agrees_with_char() {
    for code in 0u32..0x3100 {
        if let Some(c) = char::from_u32(code) {
            assert_eq!(is_whitespace(c), c.is_whitespace(), "U+{:04X}", code);
        }
    }
}

#[test]
fn split_whitespace_gives_the_words() {
    assert_eq!(split_whitespace(&text_chars("  base   x11\tgnome \n")), text_lines(&["base", "x11", "gnome"]));
    assert_eq!(split_whitespace(&text_chars("one")), text_lines(&["one"]));
    assert_eq!(split_whitespace(&text_chars("   ")), text_lines(&[]));
    assert_eq!(split_whitespace(&text_chars("")), text_lines(&[]));
}

#[test]
fn split_whitespace_agrees_with_str() {
    for sample in ["a b", " a  b ", "\ta\u{a0}b\u{2003}c", "", "x", " \n "] {
        let expected: Vec<Vec<char>> = sample.split_whitespace().map(text_chars).collect();
        assert_eq!(split_whitespace(&text_chars(sample)), expected, "{:?}", sample);
    }
}

#[test]
fn split_at_char_keeps_empty_pieces() {
    assert_eq!(split_at_char(&text_chars("pattern:base"), ':'), text_lines(&["pattern", "base"]));
    assert_eq!(split_at_char(&text_chars("glibc"), ':'), text_lines(&["glibc"]));
    assert_eq!(split_at_char(&text_chars(""), ':'), text_lines(&[""]));
    assert_eq!(split_at_char(&text_chars("a::b:"), ':'), text_lines(&["a", "", "b", ""]));
    assert_eq!(split_at_char(&text_chars("base  x11"), ' '), text_lines(&["base", "", "x11"]));
}

#[test]
fn split_at_char_agrees_with_str() {
    for sample in ["a:b", ":", "", "a", "::a::", "product:x:y"] {
        let expected: Vec<Vec<char>> = sample.split(':').map(text_chars).collect();
        assert_eq!(split_at_char(&text_chars(sample), ':'), expected, "{:?}", sample);
    }
}

#[test]
fn words_written_with_blanks_are_read_back() {
    let list = text_lines(&["base", "enhanced_base", "x11"]);
    let written = join_texts(&list, " ");
    assert_eq!(split_whitespace(&written), list);
}

#[test]
fn has_prefix_looks_at_the_beginning() {
    assert!(has_prefix(&text_chars("kernel-default"), &text_chars("kernel-")));
    assert!(has_prefix(&text_chars("grub2"), &text_chars("grub2")));
    assert!(has_prefix(&text_chars("grub2"), &text_chars("")));
    assert!(!has_prefix(&text_chars("grub"), &text_chars("grub2")));
    assert!(!has_prefix(&text_chars("a-kernel-"), &text_chars("kernel-")));
}

#[test]
fn append_decimal_writes_numbers() {
    for n in [0u64, 7, 10, 99, 100, 1657113019, u64::MAX] {
        let mut out = text_chars("t=");
        append_decimal(&mut out, n);
        assert_eq!(out, text_chars(&format!("t={}", n)));
    }
}

#[test]
fn append_signed_decimal_writes_the_sign() {
    for v in [0i64, 99, -1, -99, 120, i64::MAX, i64::MIN] {
        let mut out = Vec::new();
        append_signed_decimal(&mut out, v);
        assert_eq!(out, text_chars(&format!("{}", v)));
    }
}

#[test]
fn append_str_appends() {
    let mut out = text_chars("repo ");
    append_str(&mut out, "oss");
    assert_eq!(out, text_chars("repo oss"));
}
